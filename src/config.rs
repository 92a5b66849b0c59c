use vstd::prelude::*;

verus! {

/// What to do when the file that a recording would be written to exists already.
#[derive(Clone, Copy, Debug, PartialEq, Eq, Structural)]
pub enum ExistingFileStrategy {
    /// Number the new file after the highest free number.
    RenameToLast,
    /// Reserved: no behaviour is defined for it.
    RenameToFirst,
    /// Reserved: no behaviour is defined for it.
    Append,
    /// Overwrite the existing file.
    Replace,
    /// Reserved: no behaviour is defined for it.
    Ask,
}

/// The configuration word of each strategy.
pub open spec fn strategy_name(s: ExistingFileStrategy) -> Seq<char> {
    match s {
        ExistingFileStrategy::RenameToLast => seq!['r', 'e', 'n', 'a', 'm', 'e', '-', 't', 'o', '-', 'l', 'a', 's', 't'],
        ExistingFileStrategy::RenameToFirst => seq!['r', 'e', 'n', 'a', 'm', 'e', '-', 't', 'o', '-', 'f', 'i', 'r', 's', 't'],
        ExistingFileStrategy::Append => seq!['a', 'p', 'p', 'e', 'n', 'd'],
        ExistingFileStrategy::Replace => seq!['r', 'e', 'p', 'l', 'a', 'c', 'e'],
        ExistingFileStrategy::Ask => seq!['a', 's', 'k'],
    }
}

/// The strategy that `word` names, if any.
pub open spec fn parse_strategy(word: Seq<char>) -> Option<ExistingFileStrategy> {
    if word == strategy_name(ExistingFileStrategy::RenameToLast) {
        Some(ExistingFileStrategy::RenameToLast)
    } else if word == strategy_name(ExistingFileStrategy::RenameToFirst) {
        Some(ExistingFileStrategy::RenameToFirst)
    } else if word == strategy_name(ExistingFileStrategy::Append) {
        Some(ExistingFileStrategy::Append)
    } else if word == strategy_name(ExistingFileStrategy::Replace) {
        Some(ExistingFileStrategy::Replace)
    } else if word == strategy_name(ExistingFileStrategy::Ask) {
        Some(ExistingFileStrategy::Ask)
    } else {
        None
    }
}

impl ExistingFileStrategy {
    /// Reads a strategy from its configuration word; `None` for any other text.
    pub fn parse(word: &str) -> (r: Option<ExistingFileStrategy>)
        ensures
            r == parse_strategy(word@),
            r matches Some(s) ==> strategy_name(s) == word@,
    {
        proof {
            reveal_strlit("rename-to-last");
            reveal_strlit("rename-to-first");
            reveal_strlit("append");
            reveal_strlit("replace");
            reveal_strlit("ask");
            assert("rename-to-last"@ =~= strategy_name(ExistingFileStrategy::RenameToLast));
            assert("rename-to-first"@ =~= strategy_name(ExistingFileStrategy::RenameToFirst));
            assert("append"@ =~= strategy_name(ExistingFileStrategy::Append));
            assert("replace"@ =~= strategy_name(ExistingFileStrategy::Replace));
            assert("ask"@ =~= strategy_name(ExistingFileStrategy::Ask));
        }
        let w = word.to_owned();
        if w == "rename-to-last".to_owned() {
            Some(ExistingFileStrategy::RenameToLast)
        } else if w == "rename-to-first".to_owned() {
            Some(ExistingFileStrategy::RenameToFirst)
        } else if w == "append".to_owned() {
            Some(ExistingFileStrategy::Append)
        } else if w == "replace".to_owned() {
            Some(ExistingFileStrategy::Replace)
        } else if w == "ask".to_owned() {
            Some(ExistingFileStrategy::Ask)
        } else {
            None
        }
    }

    /// The strategy used when the configuration names none, or names an
    /// unknown one.
    pub fn from_config(word: Option<&str>) -> (r: ExistingFileStrategy)
        ensures
            r == match word {
                Some(w) => match parse_strategy(w@) {
                    Some(s) => s,
                    None => ExistingFileStrategy::RenameToLast,
                },
                None => ExistingFileStrategy::RenameToLast,
            },
    {
        match word {
            Some(w) => match ExistingFileStrategy::parse(w) {
                Some(s) => s,
                None => ExistingFileStrategy::RenameToLast,
            },
            None => ExistingFileStrategy::RenameToLast,
        }
    }
}

impl std::str::FromStr for ExistingFileStrategy {
    type Err = ();

    fn from_str(word: &str) -> (r: Result<ExistingFileStrategy, ()>)
        ensures
            r == match parse_strategy(word@) {
                Some(s) => Ok::<ExistingFileStrategy, ()>(s),
                None => Err(()),
            },
    {
        match ExistingFileStrategy::parse(word) {
            Some(s) => Ok(s),
            None => Err(()),
        }
    }
}

} // verus!
