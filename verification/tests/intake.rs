use nfe_intake::config::{validate_args, Ambiente, Args};
use nfe_intake::matcher::matches_filename;
use nfe_intake::policy::{decide, display_lines, Disposition};
use nfe_intake::record::parse_record;
use nfe_intake::relocate::{advance, editor_program, next_action, MoveAction, MoveEvent, MovePhase};
use nfe_intake::retrieval::{
    candidate_matches, canonical_name, select_recent, strip_header, Candidate,
};
use nfe_intake::watch::{dispatch_file, event_matches, WatchSession, WatchSignal};

#[test]
fn matcher_accepts_tag_after_zeros() {
    assert!(matches_filename(b"resp-nota000123#xyz", b"123"));
    assert!(matches_filename(b"resp-nota000123#xyz", b"12"));
    assert!(matches_filename(b"resp-nota000123#xyz", b""));
    assert!(!matches_filename(b"resp-nota000123#xyz", b"23"));
    assert!(!matches_filename(b"resp-nota000123#xyz", b"0123"));
}

#[test]
fn matcher_covers_every_prefix_family() {
    assert!(matches_filename(b"resp-nota0042", b"42"));
    assert!(matches_filename(b"resp-cancel0077#s", b"77"));
    assert!(matches_filename(b"resp-mdfe09", b"9"));
    assert!(!matches_filename(b"resp-unknown0042", b"42"));
    assert!(!matches_filename(b"nota0042", b"42"));
}

#[test]
fn matcher_noise_after_hash_is_ignored() {
    assert!(matches_filename(b"resp-nota00042ABC#sess1", b"42ABC"));
    assert!(!matches_filename(b"resp-nota00042ABC#sess1", b"sess1"));
    assert!(matches_filename(b"resp-nota00042ABC#42X", b"42ABC"));
}

#[test]
fn matcher_empty_remainder_matches_only_empty_fragment() {
    assert!(matches_filename(b"resp-nota0000", b""));
    assert!(!matches_filename(b"resp-nota0000", b"1"));
    assert!(matches_filename(b"resp-nota0000#noise", b""));
    assert!(!matches_filename(b"resp-nota0000#noise", b"n"));
}

#[test]
fn parse_reads_keys_and_values() {
    let rec = parse_record(b"Resultado=100\nNprotocolo=55\n");
    assert_eq!(rec.get(b"Resultado"), Some(b"100".to_vec()));
    assert_eq!(rec.get(b"Nprotocolo"), Some(b"55".to_vec()));
    assert_eq!(rec.get(b"Mensagem"), None);
    assert_eq!(rec.pairs.len(), 2);
}

#[test]
fn parse_is_idempotent_on_well_formed_input() {
    let bytes: &[u8] = b"Resultado=100\nNprotocolo=55\nMensagem=ok\n";
    let first = parse_record(bytes);
    let second = parse_record(bytes);
    assert_eq!(first.pairs, second.pairs);
}

#[test]
fn parse_skips_blank_and_comment_lines() {
    let rec = parse_record(b"# a comment\n\n   \n\t\nA=1\n  # indented comment\n");
    assert_eq!(rec.pairs.len(), 1);
    assert_eq!(rec.get(b"A"), Some(b"1".to_vec()));
}

#[test]
fn parse_duplicate_key_keeps_last_value() {
    let rec = parse_record(b"K=1\nOther=x\nK=2\n");
    assert_eq!(rec.get(b"K"), Some(b"2".to_vec()));
    assert_eq!(rec.pairs.len(), 2);
}

#[test]
fn parse_line_without_equals_is_empty_value() {
    let rec = parse_record(b"JUSTAKEY\n");
    assert_eq!(rec.get(b"JUSTAKEY"), Some(b"".to_vec()));
}

#[test]
fn parse_trims_surrounding_whitespace_only() {
    let rec = parse_record(b"  A=1  \r\n");
    assert_eq!(rec.get(b"A"), Some(b"1".to_vec()));
    let spaced = parse_record(b"B = 2\n");
    assert_eq!(spaced.get(b"B "), Some(b" 2".to_vec()));
    assert_eq!(spaced.get(b"B"), None);
}

#[test]
fn parse_tolerates_invalid_utf8() {
    let rec = parse_record(b"A=B\n\xff\n");
    assert_eq!(rec.get(b"A"), Some(b"B".to_vec()));
    // the invalid byte is substituted, not kept and not fatal
    assert_eq!(rec.pairs.len(), 2);
    assert_eq!(rec.get(b"\xef\xbf\xbd"), Some(b"".to_vec()));
    assert_eq!(rec.get(b"\xff"), None);
}

#[test]
fn display_follows_fixed_order() {
    let rec = parse_record(b"ChaveNFe=key1\nResultado=100\nExtra=z\nMensagem=done\n");
    let rows = display_lines(&rec);
    let keys: Vec<&[u8]> = rows.iter().map(|p| p.0.as_slice()).collect();
    assert_eq!(keys, vec![b"Resultado".as_slice(), b"Mensagem", b"ChaveNFe"]);
    assert_eq!(rows[0].1, b"100".to_vec());
    assert_eq!(rows[1].1, b"done".to_vec());
    assert_eq!(rows[2].1, b"key1".to_vec());
}

#[test]
fn disposition_keeps_success_codes() {
    let kept100 = parse_record(b"Resultado=100\n");
    assert_eq!(decide(&kept100), Disposition::Kept);
    let kept124 = parse_record(b"Resultado=124\n");
    assert_eq!(decide(&kept124), Disposition::Kept);
}

#[test]
fn disposition_deletes_other_codes() {
    let rejected = parse_record(b"Resultado=217\n");
    assert_eq!(decide(&rejected), Disposition::Deleted);
    let empty_code = parse_record(b"Resultado=\n");
    assert_eq!(decide(&empty_code), Disposition::Deleted);
}

#[test]
fn disposition_unknown_when_code_absent() {
    let no_code = parse_record(b"Nprotocolo=55\n");
    assert_eq!(decide(&no_code), Disposition::Unknown);
}

#[test]
fn dispatch_deletes_exactly_on_deleted() {
    let session = WatchSession { fragment: b"42".to_vec(), editor: false };
    let rejected = dispatch_file(&session, b"Resultado=300\n");
    assert!(rejected.delete_file);
    assert_eq!(rejected.signal, WatchSignal::Continue);
    let kept = dispatch_file(&session, b"Resultado=100\n");
    assert!(!kept.delete_file);
    assert_eq!(kept.signal, WatchSignal::Continue);
    let unknown = dispatch_file(&session, b"Mensagem=hi\n");
    assert!(!unknown.delete_file);
    assert_eq!(unknown.disposition, Disposition::Unknown);
}

#[test]
fn dispatch_signals_finish_in_editor_mode() {
    let session = WatchSession { fragment: b"42".to_vec(), editor: true };
    let kept = dispatch_file(&session, b"Resultado=124\n");
    assert_eq!(kept.signal, WatchSignal::FinishKept);
    let rejected = dispatch_file(&session, b"Resultado=217\n");
    assert_eq!(rejected.signal, WatchSignal::FinishDeleted);
    assert!(rejected.delete_file);
    let unknown = dispatch_file(&session, b"x=y\n");
    assert_eq!(unknown.signal, WatchSignal::Continue);
}

#[test]
fn dispatch_example_record_is_kept_and_printed() {
    let session = WatchSession { fragment: b"42ABC".to_vec(), editor: false };
    assert!(event_matches(&session, b"resp-nota00042ABC#sess1"));
    let d = dispatch_file(&session, b"Resultado=100\nNprotocolo=55\n");
    assert_eq!(d.disposition, Disposition::Kept);
    let keys: Vec<&[u8]> = d.rows.iter().map(|p| p.0.as_slice()).collect();
    assert_eq!(keys, vec![b"Resultado".as_slice(), b"Nprotocolo"]);
    assert_eq!(d.rows[0].1, b"100".to_vec());
    assert_eq!(d.rows[1].1, b"55".to_vec());
}

#[test]
fn selection_is_bounded_at_250_most_recent() {
    let mut entries = Vec::new();
    for i in 0..300usize {
        entries.push(Candidate { id: i, stamp: i as u64 });
    }
    let picked = select_recent(entries);
    assert_eq!(picked.len(), 250);
    assert_eq!(picked[0].stamp, 299);
    assert_eq!(picked[249].stamp, 50);
    for w in picked.windows(2) {
        assert!(w[0].stamp >= w[1].stamp);
    }
}

#[test]
fn selection_keeps_everything_under_the_bound() {
    let entries = vec![
        Candidate { id: 0, stamp: 5 },
        Candidate { id: 1, stamp: 9 },
        Candidate { id: 2, stamp: 7 },
        Candidate { id: 3, stamp: 9 },
    ];
    let picked = select_recent(entries);
    assert_eq!(picked.len(), 4);
    assert_eq!(picked[0].stamp, 9);
    assert_eq!(picked[1].stamp, 9);
    assert_eq!(picked[2].stamp, 7);
    assert_eq!(picked[3].stamp, 5);
}

#[test]
fn canonical_name_drops_hash_tail_and_line_end() {
    assert_eq!(canonical_name(b"resp-nota00042ABC#sess1\r\n"), b"resp-nota00042ABC".to_vec());
    assert_eq!(canonical_name(b"plain-name\n"), b"plain-name".to_vec());
    assert_eq!(canonical_name(b"name#"), b"name".to_vec());
    assert_eq!(canonical_name(b""), b"".to_vec());
}

#[test]
fn candidate_matching_looks_inside_canonical_name() {
    assert!(candidate_matches(b"resp-nota00042ABC#sess1\n", b"ABC"));
    assert!(candidate_matches(b"resp-nota00042ABC#sess1\n", b"42ABC"));
    assert!(!candidate_matches(b"resp-nota00042ABC#sess1\n", b"sess"));
    assert!(!candidate_matches(b"resp-nota00042ABC#sess1\n", b"XYZ"));
}

#[test]
fn header_strip_removes_two_lines_exactly() {
    assert_eq!(strip_header(b"meta\nresp-nota1\npayload"), b"payload".to_vec());
    assert_eq!(strip_header(b"a\nb\nline3\nline4"), b"line3\nline4".to_vec());
    assert_eq!(strip_header(b"a\nb\n"), b"".to_vec());
}

#[test]
fn header_strip_keeps_short_files_whole() {
    assert_eq!(strip_header(b"one line only\nrest"), b"one line only\nrest".to_vec());
    assert_eq!(strip_header(b"no newline at all"), b"no newline at all".to_vec());
    assert_eq!(strip_header(b""), b"".to_vec());
}

#[test]
fn move_protocol_rename_path() {
    let p = MovePhase::Renaming;
    assert_eq!(next_action(p), Some(MoveAction::Rename));
    let p = advance(p, MoveEvent::RenameOk);
    assert_eq!(p, MovePhase::Done);
    assert_eq!(next_action(p), None);
}

#[test]
fn move_protocol_cross_volume_fallback() {
    let mut p = MovePhase::Renaming;
    p = advance(p, MoveEvent::RenameCrossVolume);
    assert_eq!(p, MovePhase::Copying);
    assert_eq!(next_action(p), Some(MoveAction::CopyToDestination));
    p = advance(p, MoveEvent::CopyOk);
    assert_eq!(p, MovePhase::Deleting);
    assert_eq!(next_action(p), Some(MoveAction::DeleteSource));
    p = advance(p, MoveEvent::DeleteOk);
    assert_eq!(p, MovePhase::Done);
}

#[test]
fn move_protocol_mid_failure_then_rerun_converges() {
    let mut p = MovePhase::Renaming;
    p = advance(p, MoveEvent::RenameCrossVolume);
    p = advance(p, MoveEvent::CopyOk);
    p = advance(p, MoveEvent::DeleteFailed);
    assert_eq!(p, MovePhase::Failed);
    assert_eq!(next_action(p), None);
    // the step is re-run; this time the delete goes through
    let mut again = MovePhase::Renaming;
    again = advance(again, MoveEvent::RenameCrossVolume);
    again = advance(again, MoveEvent::CopyOk);
    again = advance(again, MoveEvent::DeleteOk);
    assert_eq!(again, MovePhase::Done);
}

#[test]
fn editor_override_beats_default() {
    assert_eq!(editor_program(Some(b"vim".to_vec())), b"vim".to_vec());
    assert_eq!(editor_program(None), b"notepad".to_vec());
}

#[test]
fn editor_flag_requires_retrieval() {
    let bad = Args { prefix: b"42".to_vec(), get_nfe: false, ambient: Ambiente::PRD, editor: true };
    assert!(!validate_args(&bad));
    let combined = Args { prefix: b"42".to_vec(), get_nfe: true, ambient: Ambiente::QAS, editor: true };
    assert!(validate_args(&combined));
    let watch_only = Args { prefix: b"42".to_vec(), get_nfe: false, ambient: Ambiente::PRD, editor: false };
    assert!(validate_args(&watch_only));
    assert_eq!(Ambiente::default(), Ambiente::PRD);
}
