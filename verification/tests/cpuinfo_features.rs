use blake_bench::cpuinfo::{
    chars_of, cpuinfo_features, features_in_line, opens_with_prefix, space, split_lines,
    split_words,
};

fn by_std(text: &str) -> Vec<String> {
    let mut found = Vec::new();
    for line in text.lines() {
        if let Some(rest) = line.strip_prefix("features") {
            if let Some(idx) = rest.find(':') {
                for tok in rest[idx + 1..].split_whitespace() {
                    found.push(tok.to_string());
                }
            }
        }
    }
    found
}

fn chars(text: &str) -> Vec<char> {
    text.chars().collect()
}

#[test]
fn space_is_unicode_white_space() {
    for code in 0u32..=0x10FFFF {
        if let Some(c) = char::from_u32(code) {
            assert_eq!(space(c), c.is_whitespace(), "U+{:04X}", code);
        }
    }
}

#[test]
fn chars_of_keeps_every_character() {
    for text in ["", "a", "features : vx\n", "é€😀\u{2003}z"] {
        assert_eq!(chars_of(text), chars(text));
    }
}

#[test]
fn lines_are_cut_at_line_feeds() {
    assert_eq!(split_lines(&chars("")), vec![chars("")]);
    assert_eq!(split_lines(&chars("a")), vec![chars("a")]);
    assert_eq!(split_lines(&chars("a\n")), vec![chars("a"), chars("")]);
    assert_eq!(split_lines(&chars("a\n\nb c\r\nd")), vec![chars("a"), chars(""), chars("b c\r"), chars("d")]);
}

#[test]
fn words_are_runs_without_white_space() {
    assert_eq!(split_words(&chars(""), 0), Vec::<String>::new());
    assert_eq!(split_words(&chars("   \t "), 0), Vec::<String>::new());
    assert_eq!(split_words(&chars("vx"), 0), vec!["vx"]);
    assert_eq!(split_words(&chars(" vx  vxe\tvxe2 "), 0), vec!["vx", "vxe", "vxe2"]);
    assert_eq!(split_words(&chars("ab cd"), 1), vec!["b", "cd"]);
    assert_eq!(split_words(&chars("ab cd"), 5), Vec::<String>::new());
    assert_eq!(split_words(&chars("a\u{00A0}b\u{3000}c"), 0), vec!["a", "b", "c"]);
}

#[test]
fn feature_lines_open_with_the_word() {
    assert!(opens_with_prefix(&chars("features")));
    assert!(opens_with_prefix(&chars("features\t: a")));
    assert!(opens_with_prefix(&chars("featuresX")));
    assert!(!opens_with_prefix(&chars("feature")));
    assert!(!opens_with_prefix(&chars(" features : a")));
    assert!(!opens_with_prefix(&chars("Features : a")));
    assert!(!opens_with_prefix(&chars("featureZ : a")));
    assert!(!opens_with_prefix(&chars("")));
}

#[test]
fn one_line_of_features() {
    assert_eq!(features_in_line(&chars("features\t: esan3 zarch stfle")), vec!["esan3", "zarch", "stfle"]);
    assert_eq!(features_in_line(&chars("features:a:b c")), vec!["a:b", "c"]);
    assert_eq!(features_in_line(&chars("features a b")), Vec::<String>::new());
    assert_eq!(features_in_line(&chars("features:")), Vec::<String>::new());
    assert_eq!(features_in_line(&chars("flags : a b")), Vec::<String>::new());
    assert_eq!(features_in_line(&chars("features of note: x")), vec!["x"]);
}

#[test]
fn description_of_a_mainframe() {
    let text = "vendor_id       : IBM/S390\n\
                # processors    : 2\n\
                bogomips per cpu: 3241.00\n\
                max thread id   : 0\n\
                features\t: esan3 zarch stfle msa ldisp eimm dfp edat etf3eh highgprs te vx vxd vxe gs vxe2 vxp sort dflt sie \n\
                facilities      : 0 1 2 3\n\
                processor 0: version = FF,  identification = 012345,  machine = 8561\n";
    assert_eq!(
        cpuinfo_features(text),
        vec![
            "esan3", "zarch", "stfle", "msa", "ldisp", "eimm", "dfp", "edat", "etf3eh",
            "highgprs", "te", "vx", "vxd", "vxe", "gs", "vxe2", "vxp", "sort", "dflt", "sie"
        ]
    );
}

#[test]
fn parser_agrees_with_the_standard_library() {
    let texts = [
        "",
        "\n",
        "features",
        "features:",
        "features: a",
        "features: a\n",
        "features: a\r\n",
        "features: a b\r\nfeatures\t:c\n\nfeatures d\nfeatures::e :f\n",
        "model: x\nfeatures : vx vxe\nfeatures : vx\nother: features : no\n",
        "features:\u{2003}wide\u{00A0}gap\u{0085}next\n",
        "features\r: a\r\n",
        "feature: a\nfeaturess: b\n features: c\n",
        "features: last line without end",
        "features: é € 😀\n",
    ];
    for text in texts {
        assert_eq!(cpuinfo_features(text), by_std(text), "{:?}", text);
    }
}
