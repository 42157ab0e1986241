use wavebase::parser::{normalize_key, parse_filename};

#[test]
fn test_parse_bpm_suffix() {
    let r = parse_filename("loop 128bpm test.wav");
    assert_eq!(r.bpm, Some(128));
    assert_eq!(r.track_type, Some("Loop".to_string()));
}

#[test]
fn test_parse_bpm_prefix() {
    let r = parse_filename("bpm140 kick.wav");
    assert_eq!(r.bpm, Some(140));
}

#[test]
fn test_parse_bpm_with_space() {
    let r = parse_filename("my track 120 BPM.mp3");
    assert_eq!(r.bpm, Some(120));
}

#[test]
fn test_parse_key_minor() {
    let r = parse_filename("track Dm.wav");
    assert_eq!(r.key, Some("D Minor".to_string()));
}

#[test]
fn test_parse_key_major() {
    let r = parse_filename("C# major loop.wav");
    assert_eq!(r.key, Some("C# Major".to_string()));
    assert_eq!(r.track_type, Some("Loop".to_string()));
}

#[test]
fn test_parse_key_shorthand() {
    let r = parse_filename("Am bass.wav");
    assert_eq!(r.key, Some("A Minor".to_string()));
}

#[test]
fn test_parse_artist() {
    let r = parse_filename("track @producer.wav");
    assert_eq!(r.artist, Some("producer".to_string()));
}

#[test]
fn test_parse_full() {
    let r = parse_filename("Kick_Loop_140bpm_Dm_@user.wav");
    assert_eq!(r.bpm, Some(140));
    assert_eq!(r.key, Some("D Minor".to_string()));
    assert_eq!(r.track_type, Some("Loop".to_string()));
    assert_eq!(r.artist, Some("user".to_string()));
}

#[test]
fn test_parse_no_match() {
    let r = parse_filename("unknown file.wav");
    assert_eq!(r.bpm, None);
    assert_eq!(r.key, None);
    assert_eq!(r.artist, None);
    assert_eq!(r.track_type, None);
}

#[test]
fn test_parse_bpm_out_of_range() {
    let r = parse_filename("file 999bpm.wav");
    assert_eq!(r.bpm, None);
}

#[test]
fn parse_track_name_is_leftover_words() {
    let r = parse_filename("Kick_Loop_140bpm_Dm_@user.wav");
    assert_eq!(r.track_name, Some("kick".to_string()));
}

#[test]
fn parse_track_name_without_tokens_keeps_case() {
    let r = parse_filename("My_Cool-Track.wav");
    assert_eq!(r.track_name, Some("My Cool Track".to_string()));
}

#[test]
fn parse_track_name_none_when_all_words_used() {
    let r = parse_filename("loop 120 bpm.wav");
    assert_eq!(r.bpm, Some(120));
    assert_eq!(r.track_name, None);
}

#[test]
fn parse_bpm_word_before_number() {
    let r = parse_filename("bpm 95 groove.wav");
    assert_eq!(r.bpm, Some(95));
    assert_eq!(r.track_name, Some("groove".to_string()));
}

#[test]
fn parse_last_bpm_wins() {
    let r = parse_filename("90bpm 100bpm.wav");
    assert_eq!(r.bpm, Some(100));
}

#[test]
fn parse_bpm_below_range() {
    let r = parse_filename("slow 59bpm.wav");
    assert_eq!(r.bpm, None);
    let r = parse_filename("edge 60bpm.wav");
    assert_eq!(r.bpm, Some(60));
    let r = parse_filename("edge 300bpm.wav");
    assert_eq!(r.bpm, Some(300));
}

#[test]
fn parse_several_artists() {
    let r = parse_filename("beat @one @two.wav");
    assert_eq!(r.artists, vec!["one".to_string(), "two".to_string()]);
    assert_eq!(r.artist, Some("two".to_string()));
    assert_eq!(r.track_type, Some("Beat".to_string()));
}

#[test]
fn parse_bare_at_sign_is_no_artist() {
    let r = parse_filename("a @ b.wav");
    assert_eq!(r.artist, None);
    assert!(r.artists.is_empty());
}

#[test]
fn parse_track_types() {
    assert_eq!(parse_filename("drum stems.wav").track_type, Some("Stem".to_string()));
    assert_eq!(parse_filename("one shot.wav").track_type, Some("OneShot".to_string()));
    assert_eq!(parse_filename("kick oneshot.wav").track_type, Some("OneShot".to_string()));
}

#[test]
fn parse_full_example_name() {
    let r = parse_filename("Kick_Loop_140bpm_Dm_@user.wav");
    assert_eq!(r.bpm, Some(140));
    assert_eq!(r.key, Some("D Minor".to_string()));
    assert_eq!(r.artist, Some("user".to_string()));
    assert_eq!(r.track_type, Some("Loop".to_string()));
    assert_eq!(r.track_name, Some("kick".to_string()));
}

#[test]
fn parse_ligature_names_no_key() {
    // "\u{fb00}" and "\u{fb01}" are not the letters A to G, so no key is read.
    let r = parse_filename("\u{fb00}.wav");
    assert_eq!(r.key, None);
    assert_eq!(r.track_name, Some("\u{fb00}".to_string()));
    assert_eq!(normalize_key("\u{fb01}le"), None);
    assert_eq!(parse_filename("\u{fb01}le.wav").key, None);
}

#[test]
fn parse_root_then_mode_word() {
    let r = parse_filename("C# minor loop.wav");
    assert_eq!(r.key, Some("C# Minor".to_string()));
    assert_eq!(r.track_type, Some("Loop".to_string()));
    assert_eq!(r.track_name, None);
    let r = parse_filename("pad_A_min_warm.wav");
    assert_eq!(r.key, Some("A Minor".to_string()));
    assert_eq!(r.track_name, Some("pad warm".to_string()));
    // A full key keeps its own mode; the next word stays in the name.
    let r = parse_filename("Dm minor.wav");
    assert_eq!(r.key, Some("D Minor".to_string()));
    assert_eq!(r.track_name, Some("minor".to_string()));
}

#[test]
fn parse_flat_keys() {
    assert_eq!(parse_filename("bass Bbm.wav").key, Some("Bb Minor".to_string()));
    assert_eq!(parse_filename("pad Eb major.wav").key, Some("Eb Major".to_string()));
}

#[test]
fn normalize_key_forms() {
    assert_eq!(normalize_key("Dm"), Some("D Minor".to_string()));
    assert_eq!(normalize_key("c#maj"), Some("C# Major".to_string()));
    assert_eq!(normalize_key("A minor"), Some("A Minor".to_string()));
    assert_eq!(normalize_key("F"), Some("F Major".to_string()));
    assert_eq!(normalize_key("gmoll"), Some("G Minor".to_string()));
    assert_eq!(normalize_key("Edur"), Some("E Major".to_string()));
    assert_eq!(normalize_key("H"), None);
    assert_eq!(normalize_key("Dx"), None);
    assert_eq!(normalize_key(""), None);
    assert_eq!(normalize_key("Bb"), Some("Bb Major".to_string()));
    assert_eq!(normalize_key("bbm"), Some("Bb Minor".to_string()));
    assert_eq!(normalize_key("Ebmin"), Some("Eb Minor".to_string()));
    assert_eq!(normalize_key(" g# "), Some("G# Major".to_string()));
    assert_eq!(normalize_key("1m"), None);
    assert_eq!(normalize_key("BB"), None);
}

#[test]
fn parse_artist_word_can_also_name_a_key() {
    // "@b" names the artist "b" and, trimmed of "@", the key B Major.
    let r = parse_filename("loop @b.wav");
    assert_eq!(r.artist, Some("b".to_string()));
    assert_eq!(r.key, Some("B Major".to_string()));
}

#[test]
fn parse_tokens_in_any_order_and_case() {
    let r = parse_filename("@Someone-GMIN-Beats-90_BPM.flac");
    assert_eq!(r.bpm, Some(90));
    assert_eq!(r.key, Some("G Minor".to_string()));
    assert_eq!(r.track_type, Some("Beat".to_string()));
    assert_eq!(r.artist, Some("someone".to_string()));
    assert_eq!(r.track_name, None);
}

#[test]
fn parse_trims_punctuation_around_tokens() {
    let r = parse_filename("(loop) [128bpm] {Am}.wav");
    assert_eq!(r.track_type, Some("Loop".to_string()));
    assert_eq!(r.bpm, Some(128));
    assert_eq!(r.key, Some("A Minor".to_string()));
}
