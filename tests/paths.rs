use std::str::FromStr;
use audio_sidecar::config::ExistingFileStrategy;
use audio_sidecar::paths::{
    candidate_name, push_decimal, resolve_step, strip_extension, ResolveError, StepKind,
    AUDIO_SUFFIX, FLAC_EXTENSION, MAX_RENAME_ATTEMPTS,
};

/// Runs the resolver against a fixed set of existing files; gives the final
/// decision and the names it asked about.
fn drive(
    base: &str,
    policy: ExistingFileStrategy,
    existing: &[String],
) -> (Result<(StepKind, String), ResolveError>, Vec<String>) {
    let mut answers = Vec::new();
    let mut asked = Vec::new();
    loop {
        match resolve_step(base, AUDIO_SUFFIX, FLAC_EXTENSION, policy, &answers) {
            Ok(step) if step.kind == StepKind::Probe => {
                answers.push(existing.contains(&step.path));
                asked.push(step.path);
            }
            Ok(step) => return (Ok((step.kind, step.path)), asked),
            Err(e) => return (Err(e), asked),
        }
    }
}

fn names(list: &[&str]) -> Vec<String> {
    list.iter().map(|s| s.to_string()).collect()
}

#[test]
fn replace_keeps_the_existing_name() {
    let existing = names(&["/tmp/photo_audio.flac"]);
    let (r, asked) = drive("/tmp/photo.png", ExistingFileStrategy::Replace, &existing);
    assert_eq!(r, Ok((StepKind::Use, "/tmp/photo_audio.flac".to_string())));
    assert_eq!(asked, names(&["/tmp/photo_audio.flac"]));
}

#[test]
fn rename_to_last_skips_five_existing_names() {
    let existing = names(&[
        "/tmp/photo_audio.flac",
        "/tmp/photo_audio2.flac",
        "/tmp/photo_audio3.flac",
        "/tmp/photo_audio4.flac",
        "/tmp/photo_audio5.flac",
    ]);
    let (r, asked) = drive("/tmp/photo.png", ExistingFileStrategy::RenameToLast, &existing);
    assert_eq!(r, Ok((StepKind::Use, "/tmp/photo_audio6.flac".to_string())));
    assert_eq!(asked.len(), 6);
    assert!(!existing.contains(&"/tmp/photo_audio6.flac".to_string()));
}

#[test]
fn no_collision_gives_the_same_name_every_time() {
    for policy in [
        ExistingFileStrategy::RenameToLast,
        ExistingFileStrategy::RenameToFirst,
        ExistingFileStrategy::Append,
        ExistingFileStrategy::Replace,
        ExistingFileStrategy::Ask,
    ] {
        let first = drive("/tmp/photo.png", policy, &[]);
        let second = drive("/tmp/photo.png", policy, &[]);
        assert_eq!(first.0, Ok((StepKind::Use, "/tmp/photo_audio.flac".to_string())));
        assert_eq!(first, second);
    }
}

#[test]
fn rename_to_last_result_differs_from_every_existing_name() {
    for n in 1..=20usize {
        let existing: Vec<String> = (1..=n as u64).map(|i| candidate_name("/x/a.b.wav", AUDIO_SUFFIX, FLAC_EXTENSION, i)).collect();
        let (r, _) = drive("/x/a.b.wav", ExistingFileStrategy::RenameToLast, &existing);
        let (kind, path) = r.unwrap();
        assert_eq!(kind, StepKind::Use);
        assert!(!existing.contains(&path));
        assert_eq!(path, format!("/x/a.b_audio{}.flac", n + 1));
    }
}

#[test]
fn rename_to_last_gives_up_after_a_bounded_number_of_tries() {
    let existing: Vec<String> =
        (1..=200u64).map(|i| candidate_name("/tmp/photo.png", AUDIO_SUFFIX, FLAC_EXTENSION, i)).collect();
    let (r, asked) = drive("/tmp/photo.png", ExistingFileStrategy::RenameToLast, &existing);
    assert_eq!(r, Ok((StepKind::GiveUp, "/tmp/photo_audio101.flac".to_string())));
    assert_eq!(asked.len(), MAX_RENAME_ATTEMPTS + 1);
}

#[test]
fn undetermined_existence_counts_as_a_collision() {
    // An answer of `true` stands for "exists, or could not tell".
    let r = resolve_step("/tmp/photo.png", AUDIO_SUFFIX, FLAC_EXTENSION, ExistingFileStrategy::RenameToLast, &vec![true]).unwrap();
    assert_eq!(r.kind, StepKind::Probe);
    assert_eq!(r.path, "/tmp/photo_audio2.flac");
}

#[test]
fn reserved_policies_are_refused_on_collision() {
    let existing = names(&["/tmp/photo_audio.flac"]);
    for policy in [
        ExistingFileStrategy::RenameToFirst,
        ExistingFileStrategy::Append,
        ExistingFileStrategy::Ask,
    ] {
        let (r, _) = drive("/tmp/photo.png", policy, &existing);
        assert_eq!(r, Err(ResolveError::UnsupportedPolicy(policy)));
    }
}

#[test]
fn extension_is_taken_from_the_file_name_only() {
    assert_eq!(strip_extension("/tmp/photo.png"), "/tmp/photo");
    assert_eq!(strip_extension("a.tar.gz"), "a.tar");
    assert_eq!(strip_extension("photo"), "photo");
    assert_eq!(strip_extension("/home/u/.bashrc"), "/home/u/.bashrc");
    assert_eq!(strip_extension("/some.dir/file"), "/some.dir/file");
    assert_eq!(strip_extension("/tmp/.."), "/tmp/..");
    assert_eq!(strip_extension("/tmp/photo."), "/tmp/photo");
    assert_eq!(strip_extension("/tmp/é.jpg"), "/tmp/é");
}

#[test]
fn numbered_names() {
    assert_eq!(candidate_name("/tmp/photo.png", AUDIO_SUFFIX, FLAC_EXTENSION, 0), "/tmp/photo_audio.flac");
    assert_eq!(candidate_name("/tmp/photo.png", AUDIO_SUFFIX, FLAC_EXTENSION, 1), "/tmp/photo_audio.flac");
    assert_eq!(candidate_name("/tmp/photo.png", AUDIO_SUFFIX, FLAC_EXTENSION, 2), "/tmp/photo_audio2.flac");
    assert_eq!(candidate_name("/tmp/photo.png", AUDIO_SUFFIX, FLAC_EXTENSION, 101), "/tmp/photo_audio101.flac");
}

#[test]
fn decimal_text() {
    let mut s = String::from("n=");
    push_decimal(&mut s, 0);
    assert_eq!(s, "n=0");
    let mut s = String::new();
    push_decimal(&mut s, 1_234_567_890);
    assert_eq!(s, "1234567890");
    let mut s = String::new();
    push_decimal(&mut s, u64::MAX);
    assert_eq!(s, u64::MAX.to_string());
}

#[test]
fn strategy_words() {
    assert_eq!(ExistingFileStrategy::parse("rename-to-last"), Some(ExistingFileStrategy::RenameToLast));
    assert_eq!(ExistingFileStrategy::parse("rename-to-first"), Some(ExistingFileStrategy::RenameToFirst));
    assert_eq!(ExistingFileStrategy::parse("append"), Some(ExistingFileStrategy::Append));
    assert_eq!(ExistingFileStrategy::parse("replace"), Some(ExistingFileStrategy::Replace));
    assert_eq!(ExistingFileStrategy::parse("ask"), Some(ExistingFileStrategy::Ask));
    assert_eq!(ExistingFileStrategy::parse("Replace"), None);
    assert_eq!(ExistingFileStrategy::parse(""), None);
    assert_eq!(ExistingFileStrategy::from_str("replace"), Ok(ExistingFileStrategy::Replace));
    assert_eq!(ExistingFileStrategy::from_str("overwrite"), Err(()));
    assert_eq!(ExistingFileStrategy::from_config(None), ExistingFileStrategy::RenameToLast);
    assert_eq!(ExistingFileStrategy::from_config(Some("bogus")), ExistingFileStrategy::RenameToLast);
    assert_eq!(ExistingFileStrategy::from_config(Some("ask")), ExistingFileStrategy::Ask);
}

#[test]
fn other_suffix_and_extension() {
    assert_eq!(candidate_name("/tmp/photo.png", "_note", "ogg", 1), "/tmp/photo_note.ogg");
    assert_eq!(candidate_name("/tmp/photo.png", "", "wav", 12), "/tmp/photo12.wav");
    let r = resolve_step("clip.mov", "-v", "flac", ExistingFileStrategy::RenameToLast, &vec![true, false])
        .unwrap();
    assert_eq!(r.kind, StepKind::Use);
    assert_eq!(r.path, "clip-v2.flac");
}

#[test]
fn trailing_slashes_belong_to_no_name() {
    assert_eq!(strip_extension("/tmp/dir/"), "/tmp/dir");
    assert_eq!(strip_extension("/tmp/dir.d//"), "/tmp/dir");
    assert_eq!(strip_extension("/"), "/");
    assert_eq!(candidate_name("/tmp/dir/", AUDIO_SUFFIX, FLAC_EXTENSION, 1), "/tmp/dir_audio.flac");
}

#[test]
fn rename_to_last_avoids_files_that_are_not_the_first_names() {
    let existing = names(&[
        "/tmp/photo_audio.flac",
        "/tmp/photo_audio2.flac",
        "/tmp/photo_audio4.flac",
        "/tmp/unrelated.flac",
    ]);
    let (r, asked) = drive("/tmp/photo.png", ExistingFileStrategy::RenameToLast, &existing);
    assert_eq!(r, Ok((StepKind::Use, "/tmp/photo_audio3.flac".to_string())));
    assert_eq!(asked.len(), 3);
}

#[test]
fn capitalised_words_are_not_strategies() {
    assert_eq!(ExistingFileStrategy::from_str("Replace"), Err(()));
    assert_eq!(ExistingFileStrategy::from_str("rename-to-last"), Ok(ExistingFileStrategy::RenameToLast));
    assert_eq!(ExistingFileStrategy::from_str("rename-to-first"), Ok(ExistingFileStrategy::RenameToFirst));
    assert_eq!(ExistingFileStrategy::from_str("append"), Ok(ExistingFileStrategy::Append));
    assert_eq!(ExistingFileStrategy::from_str("ask"), Ok(ExistingFileStrategy::Ask));
}
