use ai_common::cfg::Cfg;

const SAMPLE: &str = "# ai_survival settings\n\
enabled      = on   # off to disable\n\
recall_hp    = 35     \n\
\n\
   # indented comment = ignored\n\
caution_hp=50\r\n\
no equals sign here\n\
danger_hp = 20\n\
recall_hp = 40\n\
expr = a = b\n\
 = empty key\n\
\u{3000}wide\u{a0}=\u{2003}spaced\u{85}";

#[test]
fn parse_reads_keys_and_values() {
    let c = Cfg::parse(SAMPLE);
    assert_eq!(c.string("enabled"), Some("on"));
    assert!(c.bool("enabled", false));
    assert_eq!(c.string("caution_hp"), Some("50"));
    assert_eq!(c.string("danger_hp"), Some("20"));
    assert_eq!(c.string("missing"), None);
}

#[test]
fn later_line_replaces_earlier_value() {
    let c = Cfg::parse(SAMPLE);
    assert_eq!(c.usize("recall_hp", 0), 40);
}

#[test]
fn comments_blanks_and_lines_without_equals_set_nothing() {
    let c = Cfg::parse(SAMPLE);
    assert_eq!(c.string("# indented comment"), None);
    assert_eq!(c.string("no equals sign here"), None);
    assert_eq!(c.string("#"), None);
    let empty = Cfg::parse("\n\n   \n# only = comments\n");
    assert_eq!(empty.string(""), None);
    assert_eq!(empty.string("# only"), None);
}

#[test]
fn value_splits_at_the_first_equals_sign() {
    let c = Cfg::parse(SAMPLE);
    assert_eq!(c.string("expr"), Some("a = b"));
    assert_eq!(c.string(""), Some("empty key"));
}

#[test]
fn unicode_whitespace_is_trimmed() {
    let c = Cfg::parse(SAMPLE);
    assert_eq!(c.string("wide"), Some("spaced"));
}

#[test]
fn empty_text_has_no_settings() {
    let c = Cfg::parse("");
    assert_eq!(c.string(""), None);
    assert!(c.bool("enabled", true));
    assert_eq!(c.usize("cap", 5000), 5000);
}

#[test]
fn bool_accepts_on_words_in_any_ascii_case() {
    let c = Cfg::parse("a = ON\nb = Yes\nc = 1\nd = TRUE\ne = true\nf = off\ng = 2\nh = \ni = onn");
    assert!(c.bool("a", false));
    assert!(c.bool("b", false));
    assert!(c.bool("c", false));
    assert!(c.bool("d", false));
    assert!(c.bool("e", false));
    assert!(!c.bool("f", true));
    assert!(!c.bool("g", true));
    assert!(!c.bool("h", true));
    assert!(!c.bool("i", true));
    assert!(c.bool("missing", true));
    assert!(!c.bool("missing", false));
}

#[test]
fn usize_parses_like_str_parse() {
    let c = Cfg::parse(
        "a = 42\nb = +7\nc = -1\nd =\ne = 007\nf = +\ng = 1_000\nh = 12x\ni = 99999999999999999999999",
    );
    assert_eq!(c.usize("a", 0), 42);
    assert_eq!(c.usize("b", 0), 7);
    assert_eq!(c.usize("c", 3), 3);
    assert_eq!(c.usize("d", 3), 3);
    assert_eq!(c.usize("e", 0), 7);
    assert_eq!(c.usize("f", 3), 3);
    assert_eq!(c.usize("g", 3), 3);
    assert_eq!(c.usize("h", 3), 3);
    assert_eq!(c.usize("i", 3), 3);
    assert_eq!(c.usize("missing", 11), 11);
}

#[test]
fn usize_agrees_with_std_parse() {
    for v in ["0", "+0", "18446744073709551615", "4294967296", "-0", " 1", "1 ", "", "+-1", "٣"] {
        let text = format!("k={}", v);
        let c = Cfg::parse(&text);
        let trimmed = v.trim();
        let expected: usize = trimmed.parse().ok().unwrap_or(77);
        assert_eq!(c.usize("k", 77), expected, "value {:?}", v);
    }
}

#[test]
fn usize_reads_back_the_decimal_text_of_a_number() {
    for n in [0usize, 1, 9, 10, 35, 100, 65535, usize::MAX / 3, usize::MAX] {
        let c = Cfg::parse(&format!("n = {}", n));
        assert_eq!(c.usize("n", 1), n);
    }
}

#[test]
fn joined_texts_override_left_to_right() {
    let a = "x = 1\ny = 2";
    let b = "y = 3\nz = 4";
    let c = Cfg::parse(&format!("{}\n{}", a, b));
    assert_eq!(c.string("x"), Some("1"));
    assert_eq!(c.string("y"), Some("3"));
    assert_eq!(c.string("z"), Some("4"));
}

#[test]
fn hash_starts_a_comment_anywhere_in_a_line() {
    let survival = Cfg::parse(
        "enabled      = on\nrecall_hp    = 35     # recall at/below this hp% when safe\n\
         danger_hp    = 25     # below this, flee (no skill)\n",
    );
    assert!(survival.bool("enabled", false));
    assert_eq!(survival.usize("recall_hp", 0), 35);
    assert_eq!(survival.usize("danger_hp", 20), 25);
    assert_eq!(survival.string("danger_hp"), Some("25"));

    let tuner = Cfg::parse(
        "sample_every = 30     # log one in every N ticks\n\
         only_pos     =        # blank = all; or Top/Jungle/Mid/Bottom/Support\n",
    );
    assert_eq!(tuner.usize("sample_every", 1), 30);
    assert_eq!(tuner.string("only_pos"), Some(""));

    let c = Cfg::parse("a#b = c\nkey = va#lue\n#k = v\nflag = on#\n  # x = 1");
    assert_eq!(c.string("a"), None);
    assert_eq!(c.string("a#b"), None);
    assert_eq!(c.string("key"), Some("va"));
    assert_eq!(c.string("#k"), None);
    assert_eq!(c.string("k"), None);
    assert!(c.bool("flag", false));
    assert_eq!(c.string("x"), None);
}

#[test]
fn config_file_name_is_mod_id_dot_cfg() {
    assert_eq!(Cfg::file_name("ai_perf"), "ai_perf.cfg");
}
