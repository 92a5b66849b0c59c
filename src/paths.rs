use vstd::prelude::*;
use crate::config::ExistingFileStrategy;

verus! {

/// What is put between the base name and the number of a recording's file.
pub const AUDIO_SUFFIX: &'static str = "_audio";

/// The extension of a recording's file.
pub const FLAC_EXTENSION: &'static str = "flac";

/// How many numbered names `RenameToLast` tries after the plain name.
pub const MAX_RENAME_ATTEMPTS: usize = 100;

/// The character of one decimal digit.
pub open spec fn digit_char(d: nat) -> char {
    if d == 0 {
        '0'
    } else if d == 1 {
        '1'
    } else if d == 2 {
        '2'
    } else if d == 3 {
        '3'
    } else if d == 4 {
        '4'
    } else if d == 5 {
        '5'
    } else if d == 6 {
        '6'
    } else if d == 7 {
        '7'
    } else if d == 8 {
        '8'
    } else {
        '9'
    }
}

/// `n` written in decimal, without leading zeros.
pub open spec fn decimal(n: nat) -> Seq<char>
    decreases n,
{
    if n < 10 {
        seq![digit_char(n)]
    } else {
        decimal(n / 10).push(digit_char(n % 10))
    }
}

/// Position of the last `ch` in `s`, or -1.
pub open spec fn last_index_of(s: Seq<char>, ch: char) -> int
    decreases s.len(),
{
    if s.len() == 0 {
        -1
    } else if s.last() == ch {
        s.len() - 1
    } else {
        last_index_of(s.drop_last(), ch)
    }
}

/// `path` without the slashes that end it, unless it is nothing but one.
pub open spec fn trim_trailing_slashes(path: Seq<char>) -> Seq<char>
    decreases path.len(),
{
    if path.len() > 1 && path.last() == '/' {
        trim_trailing_slashes(path.drop_last())
    } else {
        path
    }
}

/// `path` without the extension of its last component, and without the
/// slashes after that component. The extension starts at the last dot of the
/// file name, unless that dot begins the name (a hidden file) or the name is
/// `..`.
pub open spec fn without_extension(path: Seq<char>) -> Seq<char> {
    name_without_extension(trim_trailing_slashes(path))
}

/// `path` without the extension of what follows its last slash.
pub open spec fn name_without_extension(path: Seq<char>) -> Seq<char> {
    let start = last_index_of(path, '/') + 1;
    let name = path.skip(start);
    let dot = last_index_of(name, '.');
    if dot <= 0 || name == seq!['.', '.'] {
        path
    } else {
        path.take(start + dot)
    }
}

/// The `n`-th name tried for the recording of `base_path`: its path without
/// extension, then `suffix`, then the number for `n` of 2 or more, then a dot
/// and `extension`.
pub open spec fn candidate(base_path: Seq<char>, suffix: Seq<char>, extension: Seq<char>, n: nat) -> Seq<char> {
    if n <= 1 {
        without_extension(base_path) + suffix + seq!['.'] + extension
    } else {
        without_extension(base_path) + suffix + decimal(n) + seq!['.'] + extension
    }
}

/// What the resolver asks for next.
#[derive(Clone, Copy, Debug, PartialEq, Eq, Structural)]
pub enum StepKind {
    /// Find out whether a file exists at the path, and call again with the
    /// answer added.
    Probe,
    /// Write the recording to the path.
    Use,
    /// Every numbered name was taken: write to the path, the last one tried,
    /// which is taken too.
    GiveUp,
}

/// One decision of the resolver: what to do, and with which path.
pub struct PathStep {
    pub kind: StepKind,
    pub path: String,
}

/// Why no path could be chosen.
#[derive(Clone, Copy, Debug, PartialEq, Eq, Structural)]
pub enum ResolveError {
    /// The plain name is taken, and the configured strategy has no defined
    /// behaviour.
    UnsupportedPolicy(ExistingFileStrategy),
}

/// Index of the first `false` in `occupied`, or its length when there is none.
pub open spec fn first_free(occupied: Seq<bool>) -> nat
    decreases occupied.len(),
{
    if occupied.len() == 0 || !occupied[0] {
        0
    } else {
        1 + first_free(occupied.skip(1))
    }
}

/// The decision for `base_path` under `policy`, where `occupied[i]` tells
/// whether a file was found at (or could not be ruled out for) the name
/// `candidate(base_path, suffix, extension, i + 1)`.
pub open spec fn resolve_step_spec(
    base_path: Seq<char>,
    suffix: Seq<char>,
    extension: Seq<char>,
    policy: ExistingFileStrategy,
    occupied: Seq<bool>,
) -> Result<(StepKind, Seq<char>), ResolveError> {
    let f = first_free(occupied);
    if occupied.len() == 0 {
        Ok((StepKind::Probe, candidate(base_path, suffix, extension, 1)))
    } else if f == 0 {
        Ok((StepKind::Use, candidate(base_path, suffix, extension, 1)))
    } else {
        match policy {
            ExistingFileStrategy::Replace => Ok((StepKind::Use, candidate(base_path, suffix, extension, 1))),
            ExistingFileStrategy::RenameToLast => {
                if f < occupied.len() {
                    Ok((StepKind::Use, candidate(base_path, suffix, extension, (f + 1) as nat)))
                } else if occupied.len() <= MAX_RENAME_ATTEMPTS {
                    Ok((StepKind::Probe, candidate(base_path, suffix, extension, (occupied.len() + 1) as nat)))
                } else {
                    Ok((StepKind::GiveUp, candidate(base_path, suffix, extension, (MAX_RENAME_ATTEMPTS + 1) as nat)))
                }
            },
            _ => Err(ResolveError::UnsupportedPolicy(policy)),
        }
    }
}

/// Every number has at least one digit.
proof fn lemma_decimal_nonempty(n: nat)
    ensures
        decimal(n).len() >= 1,
    decreases n,
{
    if n >= 10 {
        lemma_decimal_nonempty(n / 10);
    }
}

/// Different digits are different characters.
proof fn lemma_digit_injective(x: nat, y: nat)
    requires
        x < 10,
        y < 10,
        digit_char(x) == digit_char(y),
    ensures
        x == y,
{
}

/// Different numbers are written differently.
proof fn lemma_decimal_injective(a: nat, b: nat)
    requires
        decimal(a) == decimal(b),
    ensures
        a == b,
    decreases a,
{
    if a < 10 && b < 10 {
        assert(decimal(a)[0] == digit_char(a));
        assert(decimal(b)[0] == digit_char(b));
        lemma_digit_injective(a, b);
    } else if a < 10 {
        lemma_decimal_nonempty(b / 10);
        assert(decimal(a).len() == 1);
        assert(decimal(b).len() == decimal(b / 10).len() + 1);
    } else if b < 10 {
        lemma_decimal_nonempty(a / 10);
        assert(decimal(b).len() == 1);
        assert(decimal(a).len() == decimal(a / 10).len() + 1);
    } else {
        assert(decimal(a).last() == digit_char(a % 10));
        assert(decimal(b).last() == digit_char(b % 10));
        assert(decimal(a).drop_last() =~= decimal(a / 10));
        assert(decimal(b).drop_last() =~= decimal(b / 10));
        lemma_decimal_injective(a / 10, b / 10);
        lemma_digit_injective(a % 10, b % 10);
        assert(a == 10 * (a / 10) + a % 10);
        assert(b == 10 * (b / 10) + b % 10);
    }
}

/// Different attempts name different files.
pub proof fn lemma_candidate_injective(base_path: Seq<char>, suffix: Seq<char>, extension: Seq<char>, a: nat, b: nat)
    requires
        1 <= a,
        1 <= b,
        a != b,
    ensures
        candidate(base_path, suffix, extension, a) != candidate(base_path, suffix, extension, b),
{
    let w = without_extension(base_path) + suffix;
    let e = seq!['.'] + extension;
    if a >= 2 && b >= 2 {
        let da = decimal(a);
        let db = decimal(b);
        assert(candidate(base_path, suffix, extension, a) =~= w + da + e);
        assert(candidate(base_path, suffix, extension, b) =~= w + db + e);
        if candidate(base_path, suffix, extension, a) == candidate(base_path, suffix, extension, b) {
            assert((w + da + e).subrange(w.len() as int, (w.len() + da.len()) as int) =~= da);
            assert((w + db + e).subrange(w.len() as int, (w.len() + db.len()) as int) =~= db);
            lemma_decimal_injective(a, b);
        }
    } else if a >= 2 {
        lemma_decimal_nonempty(a);
        assert(candidate(base_path, suffix, extension, a).len() > candidate(base_path, suffix, extension, b).len());
    } else {
        lemma_decimal_nonempty(b);
        assert(candidate(base_path, suffix, extension, b).len() > candidate(base_path, suffix, extension, a).len());
    }
}

/// When nothing exists at the plain name, the resolver asks about that name
/// and then settles on it, whatever the strategy: the same answers always
/// give the same path.
pub proof fn lemma_no_collision_keeps_plain_name(
    base_path: Seq<char>,
    suffix: Seq<char>,
    extension: Seq<char>,
    policy: ExistingFileStrategy,
)
    ensures
        resolve_step_spec(base_path, suffix, extension, policy, Seq::empty()) == Ok::<
            (StepKind, Seq<char>),
            ResolveError,
        >((StepKind::Probe, candidate(base_path, suffix, extension, 1))),
        resolve_step_spec(base_path, suffix, extension, policy, seq![false]) == Ok::<
            (StepKind, Seq<char>),
            ResolveError,
        >((StepKind::Use, candidate(base_path, suffix, extension, 1))),
{
}

/// The files at the first `n` names tried.
pub open spec fn first_candidates(base_path: Seq<char>, suffix: Seq<char>, extension: Seq<char>, n: nat) -> Set<Seq<char>> {
    Set::new(|p: Seq<char>| exists|i: nat| 1 <= i <= n && p == candidate(base_path, suffix, extension, i))
}

/// Truthful answers about the first `k` names tried, for the files `existing`.
pub open spec fn answers(
    base_path: Seq<char>,
    suffix: Seq<char>,
    extension: Seq<char>,
    existing: Set<Seq<char>>,
    k: nat,
) -> Seq<bool> {
    Seq::new(k, |i: int| existing.contains(candidate(base_path, suffix, extension, (i + 1) as nat)))
}

/// Under `RenameToLast`, with files at the plain name and the next `n - 1`
/// numbered names, a resolver that is answered truthfully asks about each of
/// those names in turn and then picks a name at which no file exists, one that
/// differs from all `n` of them.
pub proof fn lemma_rename_to_last_avoids_existing(
    base_path: Seq<char>,
    suffix: Seq<char>,
    extension: Seq<char>,
    n: nat,
)
    requires
        1 <= n <= MAX_RENAME_ATTEMPTS,
    ensures
        forall|k: nat|
            1 <= k <= n ==> resolve_step_spec(
                base_path,
                suffix,
                extension,
                ExistingFileStrategy::RenameToLast,
                #[trigger] answers(base_path, suffix, extension, first_candidates(base_path, suffix, extension, n), k),
            ) == Ok::<(StepKind, Seq<char>), ResolveError>(
                (StepKind::Probe, candidate(base_path, suffix, extension, k + 1)),
            ),
        resolve_step_spec(
            base_path,
            suffix,
            extension,
            ExistingFileStrategy::RenameToLast,
            answers(base_path, suffix, extension, first_candidates(base_path, suffix, extension, n), n + 1),
        ) == Ok::<(StepKind, Seq<char>), ResolveError>(
            (StepKind::Use, candidate(base_path, suffix, extension, n + 1)),
        ),
        !first_candidates(base_path, suffix, extension, n).contains(candidate(base_path, suffix, extension, n + 1)),
        forall|i: nat| 1 <= i <= n ==> candidate(base_path, suffix, extension, n + 1) != #[trigger] candidate(base_path, suffix, extension, i),
{
    let existing = first_candidates(base_path, suffix, extension, n);
    assert forall|i: nat| 1 <= i <= n implies candidate(base_path, suffix, extension, n + 1) != #[trigger] candidate(
        base_path,
        suffix,
        extension,
        i,
    ) by {
        lemma_candidate_injective(base_path, suffix, extension, n + 1, i);
    }
    assert forall|i: nat| 1 <= i <= n implies existing.contains(#[trigger] candidate(base_path, suffix, extension, i)) by {}
    assert forall|k: nat| 1 <= k <= n + 1 implies first_free(#[trigger] answers(base_path, suffix, extension, existing, k))
        == if k <= n { k } else { n } by {
        lemma_first_free_prefix(base_path, suffix, extension, existing, k, n);
    }
}

/// The first `m` names tried are `m` different names.
proof fn lemma_first_candidates_len(base_path: Seq<char>, suffix: Seq<char>, extension: Seq<char>, m: nat)
    ensures
        first_candidates(base_path, suffix, extension, m).finite(),
        first_candidates(base_path, suffix, extension, m).len() == m,
    decreases m,
{
    let s = first_candidates(base_path, suffix, extension, m);
    if m == 0 {
        assert(s =~= Set::<Seq<char>>::empty());
    } else {
        let prev = first_candidates(base_path, suffix, extension, (m - 1) as nat);
        let c = candidate(base_path, suffix, extension, m);
        lemma_first_candidates_len(base_path, suffix, extension, (m - 1) as nat);
        assert forall|p: Seq<char>| s.contains(p) <==> #[trigger] prev.insert(c).contains(p) by {
            if s.contains(p) {
                let i = choose|i: nat| 1 <= i <= m && p == candidate(base_path, suffix, extension, i);
                if i < m {
                    assert(prev.contains(p));
                }
            }
            if prev.contains(p) {
                let i = choose|i: nat| 1 <= i <= m - 1 && p == candidate(base_path, suffix, extension, i);
                assert(s.contains(p));
            }
        }
        assert(s =~= prev.insert(c));
        if prev.contains(c) {
            let i = choose|i: nat| 1 <= i <= m - 1 && c == candidate(base_path, suffix, extension, i);
            lemma_candidate_injective(base_path, suffix, extension, m, i);
        }
    }
}

/// What `first_free` tells of the entries before it and at it.
proof fn lemma_first_free_facts(a: Seq<bool>)
    ensures
        first_free(a) <= a.len(),
        forall|i: int| 0 <= i < first_free(a) ==> a[i],
        first_free(a) < a.len() ==> !a[first_free(a) as int],
    decreases a.len(),
{
    if a.len() > 0 && a[0] {
        let t = a.skip(1);
        lemma_first_free_facts(t);
        assert forall|i: int| 0 <= i < first_free(a) implies a[i] by {
            if i > 0 {
                assert(a[i] == t[i - 1]);
            }
        }
    }
}

/// Under `RenameToLast`, with any set of at most `MAX_RENAME_ATTEMPTS`
/// existing files, a resolver that is answered truthfully asks about the
/// names in turn, finds a free one among the first `existing.len() + 1`, and
/// picks it: the result is none of the existing files.
pub proof fn lemma_rename_to_last_avoids_any_existing(
    base_path: Seq<char>,
    suffix: Seq<char>,
    extension: Seq<char>,
    existing: Set<Seq<char>>,
)
    requires
        existing.finite(),
        existing.len() <= MAX_RENAME_ATTEMPTS,
    ensures
        ({
            let n = existing.len();
            let f = first_free(answers(base_path, suffix, extension, existing, n + 1));
            &&& f <= n
            &&& forall|k: nat|
                k <= f ==> resolve_step_spec(
                    base_path,
                    suffix,
                    extension,
                    ExistingFileStrategy::RenameToLast,
                    #[trigger] answers(base_path, suffix, extension, existing, k),
                ) == Ok::<(StepKind, Seq<char>), ResolveError>(
                    (StepKind::Probe, candidate(base_path, suffix, extension, k + 1)),
                )
            &&& resolve_step_spec(
                base_path,
                suffix,
                extension,
                ExistingFileStrategy::RenameToLast,
                answers(base_path, suffix, extension, existing, f + 1),
            ) == Ok::<(StepKind, Seq<char>), ResolveError>(
                (StepKind::Use, candidate(base_path, suffix, extension, f + 1)),
            )
            &&& !existing.contains(candidate(base_path, suffix, extension, f + 1))
        }),
{
    let n = existing.len();
    let all = answers(base_path, suffix, extension, existing, n + 1);
    let f = first_free(all);
    lemma_first_free_facts(all);
    if f == n + 1 {
        // Every one of the first n + 1 names would be taken: more than n files.
        let names = first_candidates(base_path, suffix, extension, n + 1);
        lemma_first_candidates_len(base_path, suffix, extension, n + 1);
        assert forall|p: Seq<char>| names.contains(p) implies existing.contains(p) by {
            let i = choose|i: nat| 1 <= i <= n + 1 && p == candidate(base_path, suffix, extension, i);
            assert(all[i - 1]);
        }
        vstd::set_lib::lemma_len_subset(names, existing);
        assert(false);
    }
    assert(!all[f as int]);
    assert forall|k: nat| k <= f implies first_free(#[trigger] answers(base_path, suffix, extension, existing, k)) == k by {
        let a = answers(base_path, suffix, extension, existing, k);
        assert forall|i: int| 0 <= i < k implies a[i] by {
            assert(a[i] == all[i]);
        }
        lemma_first_free_all(a, 0, k);
        assert(a.skip(0) =~= a);
    }
    let last = answers(base_path, suffix, extension, existing, f + 1);
    assert forall|i: int| 0 <= i < f implies last[i] by {
        assert(last[i] == all[i]);
    }
    assert(last[f as int] == all[f as int]);
    lemma_first_free_all(last, 0, f);
    assert(last.skip(0) =~= last);
}

/// The first free name among the answers about the first `k` names, when the
/// first `n` are taken and the next is free.
proof fn lemma_first_free_prefix(
    base_path: Seq<char>,
    suffix: Seq<char>,
    extension: Seq<char>,
    existing: Set<Seq<char>>,
    k: nat,
    n: nat,
)
    requires
        k <= n + 1,
        forall|i: nat| 1 <= i <= n ==> existing.contains(#[trigger] candidate(base_path, suffix, extension, i)),
        !existing.contains(candidate(base_path, suffix, extension, n + 1)),
    ensures
        first_free(answers(base_path, suffix, extension, existing, k)) == if k <= n { k } else { n },
{
    let a = answers(base_path, suffix, extension, existing, k);
    let upto: nat = if k <= n { k } else { n };
    assert forall|i: int| 0 <= i < upto implies a[i] by {
        assert(existing.contains(candidate(base_path, suffix, extension, (i + 1) as nat)));
    }
    lemma_first_free_all(a, 0, upto);
    assert(a.skip(0) =~= a);
}

/// `first_free` of a sequence whose entries from `from` up to `upto` are all
/// true, followed by a false or by the end.
proof fn lemma_first_free_all(a: Seq<bool>, from: nat, upto: nat)
    requires
        from <= upto <= a.len(),
        forall|i: int| from <= i < upto ==> a[i],
        upto < a.len() ==> !a[upto as int],
    ensures
        first_free(a.skip(from as int)) == upto - from,
    decreases upto - from,
{
    if from < upto {
        assert(a.skip(from as int).skip(1) =~= a.skip((from + 1) as int));
        lemma_first_free_all(a, from + 1, upto);
    }
    assert(a.skip(0) =~= a);
}

/// The text of one decimal digit.
fn digit_str(d: u64) -> (r: &'static str)
    requires
        d < 10,
    ensures
        r@ == seq![digit_char(d as nat)],
{
    proof {
        reveal_strlit("0");
        reveal_strlit("1");
        reveal_strlit("2");
        reveal_strlit("3");
        reveal_strlit("4");
        reveal_strlit("5");
        reveal_strlit("6");
        reveal_strlit("7");
        reveal_strlit("8");
        reveal_strlit("9");
    }
    let r = if d == 0 {
        "0"
    } else if d == 1 {
        "1"
    } else if d == 2 {
        "2"
    } else if d == 3 {
        "3"
    } else if d == 4 {
        "4"
    } else if d == 5 {
        "5"
    } else if d == 6 {
        "6"
    } else if d == 7 {
        "7"
    } else if d == 8 {
        "8"
    } else {
        "9"
    };
    assert(r@ =~= seq![digit_char(d as nat)]);
    r
}

/// Appends `n` in decimal to `s`.
pub fn push_decimal(s: &mut String, n: u64)
    ensures
        final(s)@ == old(s)@ + decimal(n as nat),
    decreases n,
{
    if n >= 10 {
        push_decimal(s, n / 10);
    }
    s.append(digit_str(n % 10));
    assert(final(s)@ =~= old(s)@ + decimal(n as nat));
}

/// The position found by `last_index_of` is one of `s`, or -1.
proof fn lemma_last_index_bounds(s: Seq<char>, ch: char)
    ensures
        -1 <= last_index_of(s, ch) < s.len(),
        last_index_of(s, ch) >= 0 ==> s[last_index_of(s, ch)] == ch,
    decreases s.len(),
{
    if s.len() > 0 && s.last() != ch {
        lemma_last_index_bounds(s.drop_last(), ch);
    }
}

/// Position of the last `ch` in `s`, or -1.
fn find_last(s: &str, ch: char) -> (r: i64)
    requires
        s@.len() < 0x8000_0000_0000_0000,
    ensures
        r as int == last_index_of(s@, ch),
{
    let n: usize = s.unicode_len();
    let mut i: usize = n;
    assert(s@.take(n as int) =~= s@);
    while i > 0
        invariant
            i <= n,
            n == s@.len(),
            n < 0x8000_0000_0000_0000,
            last_index_of(s@.take(i as int), ch) == last_index_of(s@, ch),
        decreases i,
    {
        let c = s.get_char(i - 1);
        assert(s@.take(i as int).drop_last() =~= s@.take(i - 1));
        if c == ch {
            return (i - 1) as i64;
        }
        i = i - 1;
    }
    -1
}

/// `base_path` without the extension of its file name.
pub fn strip_extension(base_path: &str) -> (r: String)
    requires
        base_path@.len() < 0x8000_0000_0000_0000,
    ensures
        r@ == without_extension(base_path@),
{
    let n: usize = base_path.unicode_len();
    let mut end: usize = n;
    assert(base_path@.take(n as int) =~= base_path@);
    while end > 1 && base_path.get_char(end - 1) == '/'
        invariant
            end <= n,
            n == base_path@.len(),
            trim_trailing_slashes(base_path@.take(end as int)) == trim_trailing_slashes(base_path@),
        decreases end,
    {
        assert(base_path@.take(end as int).drop_last() =~= base_path@.take(end - 1));
        end = end - 1;
    }
    let trimmed = base_path.substring_char(0, end);
    assert(trimmed@ =~= base_path@.take(end as int));
    strip_name_extension(trimmed)
}

/// `base_path` without the extension of what follows its last slash.
fn strip_name_extension(base_path: &str) -> (r: String)
    requires
        base_path@.len() < 0x8000_0000_0000_0000,
    ensures
        r@ == name_without_extension(base_path@),
{
    proof {
        assert(base_path@.take(base_path@.len() as int) =~= base_path@);
    }
    let n: usize = base_path.unicode_len();
    proof {
        lemma_last_index_bounds(base_path@, '/');
        lemma_last_index_bounds(base_path@.skip(last_index_of(base_path@, '/') + 1), '.');
    }
    let start: usize = (find_last(base_path, '/') + 1) as usize;
    let name = base_path.substring_char(start, n);
    assert(name@ =~= base_path@.skip(start as int));
    let dot = find_last(name, '.');
    let is_dotdot = name.unicode_len() == 2 && name.get_char(0) == '.' && name.get_char(1) == '.';
    assert(is_dotdot == (name@ =~= seq!['.', '.']));
    if dot <= 0 || is_dotdot {
        base_path.to_owned()
    } else {
        let end: usize = start + dot as usize;
        String::from_str(base_path.substring_char(0, end))
    }
}

/// The `n`-th name tried for the recording of `base_path`.
pub fn candidate_name(base_path: &str, suffix: &str, extension: &str, n: u64) -> (r: String)
    requires
        base_path@.len() < 0x8000_0000_0000_0000,
    ensures
        r@ == candidate(base_path@, suffix@, extension@, n as nat),
{
    proof {
        reveal_strlit(".");
    }
    let mut s = strip_extension(base_path);
    s.append(suffix);
    if n > 1 {
        push_decimal(&mut s, n);
    }
    s.append(".");
    s.append(extension);
    assert(s@ =~= candidate(base_path@, suffix@, extension@, n as nat));
    s
}

/// Decides, from what is known of the names tried so far, where the recording
/// of `base_path` goes, or which name to look at next. `occupied[i]` tells
/// whether a file exists at `candidate(base_path, suffix, extension, i + 1)`; a caller that could
/// not find out answers `true`, so that no file is overwritten by mistake.
pub fn resolve_step(
    base_path: &str,
    suffix: &str,
    extension: &str,
    policy: ExistingFileStrategy,
    occupied: &Vec<bool>,
) -> (r: Result<PathStep, ResolveError>)
    requires
        base_path@.len() < 0x8000_0000_0000_0000,
    ensures
        match r {
            Ok(step) => resolve_step_spec(base_path@, suffix@, extension@, policy, occupied@) == Ok::<
                (StepKind, Seq<char>),
                ResolveError,
            >((step.kind, step.path@)),
            Err(e) => resolve_step_spec(base_path@, suffix@, extension@, policy, occupied@) == Err::<
                (StepKind, Seq<char>),
                ResolveError,
            >(e),
        },
{
    let len: usize = occupied.len();
    if len == 0 {
        return Ok(PathStep { kind: StepKind::Probe, path: candidate_name(base_path, suffix, extension, 1) });
    }
    // Find the first name that is free.
    let mut f: usize = 0;
    assert(occupied@.skip(0) =~= occupied@);
    while f < len && occupied[f]
        invariant
            f <= len,
            len == occupied@.len(),
            first_free(occupied@) == f + first_free(occupied@.skip(f as int)),
        decreases len - f,
    {
        assert(occupied@.skip(f as int).skip(1) =~= occupied@.skip(f + 1));
        f = f + 1;
    }
    assert(first_free(occupied@) == f);
    if f == 0 {
        return Ok(PathStep { kind: StepKind::Use, path: candidate_name(base_path, suffix, extension, 1) });
    }
    match policy {
        ExistingFileStrategy::Replace => Ok(
            PathStep { kind: StepKind::Use, path: candidate_name(base_path, suffix, extension, 1) },
        ),
        ExistingFileStrategy::RenameToLast => {
            if f < len {
                Ok(PathStep { kind: StepKind::Use, path: candidate_name(base_path, suffix, extension, f as u64 + 1) })
            } else if len <= MAX_RENAME_ATTEMPTS {
                Ok(
                    PathStep {
                        kind: StepKind::Probe,
                        path: candidate_name(base_path, suffix, extension, len as u64 + 1),
                    },
                )
            } else {
                Ok(
                    PathStep {
                        kind: StepKind::GiveUp,
                        path: candidate_name(base_path, suffix, extension, MAX_RENAME_ATTEMPTS as u64 + 1),
                    },
                )
            }
        },
        _ => Err(ResolveError::UnsupportedPolicy(policy)),
    }
}

} // verus!
