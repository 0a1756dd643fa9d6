use transform::{LoadError, RegexTransforms};

/// A reference rule set for cleaning TV-show release names, written as the
/// four staged groups the engine expects.
fn tv_show_rules() -> RegexTransforms {
    let full_path: Vec<(String, String)> = vec![(r"\.".to_string(), " ".to_string())];
    let base_file: Vec<(String, String)> = vec![
        (r" (mkv|mp4|srt)$".to_string(), ".${1}".to_string()),
        (r" - English\.srt$".to_string(), ".en.srt".to_string()),
        (r" - S(\d\d)E(\d\d) - ".to_string(), " S${1}E${2} ".to_string()),
        (r"(\d\d)x(\d\d)".to_string(), "S${1}E${2}".to_string()),
        (r"(.*) S(\d\d)E(\d\d)".to_string(), "${1} - S${2}E${3} -".to_string()),
        (r"1080p".to_string(), "[1080p]".to_string()),
        (r"x265".to_string(), "[x265]".to_string()),
        (r"H 264".to_string(), "[h264]".to_string()),
        (
            r" (AMZN|WEB-DL|MONOLITH|BluRay|HEVC|BONE|DD5 1)".to_string(),
            String::new(),
        ),
        (r"-MiU".to_string(), String::new()),
        (r"\((\[.*\])\)".to_string(), "${1}".to_string()),
        (r" {2,}".to_string(), " ".to_string()),
    ];
    let directory: Vec<(String, String)> = vec![
        (
            r" - [^/]* (\d\d\d\d) [^/]*/Subtitles - \[SRT-MicroDVD\]$".to_string(),
            " (${1})".to_string(),
        ),
        (r" SEASON (\d) .*$".to_string(), "/Season 0${1}".to_string()),
        (
            r"( Season \d+-\d+)? S\d\d-S\d\d[^/]*/Season ".to_string(),
            "/Season ".to_string(),
        ),
        (r" S(\d\d)E\d\d[^/]*$".to_string(), "/Season ${1}".to_string()),
        (r" Season (\d+) [^/]*$".to_string(), "/Season ${1}".to_string()),
        (r"Season (\d)$".to_string(), "Season 0${1}".to_string()),
    ];
    let post_processing: Vec<(String, String)> = Vec::new();
    RegexTransforms::from_groups(full_path, base_file, directory, post_processing).unwrap()
}

fn empty_rules() -> RegexTransforms {
    RegexTransforms::from_groups(Vec::new(), Vec::new(), Vec::new(), Vec::new()).unwrap()
}

fn one_group(
    full: &[(&str, &str)],
    base: &[(&str, &str)],
    dir: &[(&str, &str)],
    post: &[(&str, &str)],
) -> RegexTransforms {
    let conv = |g: &[(&str, &str)]| -> Vec<(String, String)> {
        g.iter().map(|(p, r)| (p.to_string(), r.to_string())).collect()
    };
    RegexTransforms::from_groups(conv(full), conv(base), conv(dir), conv(post)).unwrap()
}

#[test]
fn transform_tv_shows() {
    let data: [(&str, &str); 8] = [
        (
            "TV Shows/11.22.63 - Stephen King 8 Part Mini Series 2016 Eng Ita Multi-Subs 1080p [H264-mp4]/Subtitles - [SRT-MicroDVD]/08 11.22.63 The Day In Question - English.srt",
            "TV Shows/11 22 63 (2016)/08 11 22 63 The Day In Question.en.srt"
        ),
        (
            "TV Shows/THE VAMPIRE DIARIES SEASON 8 COMPLETE S08 1080P HEVC DD51 BLUURY/The Vampire Diaries 08x01  Hello Brother.mkv",
            "TV Shows/THE VAMPIRE DIARIES/Season 08/The Vampire Diaries - S08E01 - Hello Brother.mkv"
        ),
        (   "TV Shows/Atlanta Season 1 Mp4 1080p/Atlanta S01E01.mp4",
            "TV Shows/Atlanta/Season 01/Atlanta - S01E01 -.mp4"
        ),
        (
            "TV Shows/House.of.the.Dragon.S01E01.The.Heirs.of.the.Dragon.1080p.WEB-DL.DD5.1.H.264-MiU[TGx]/House.of.the.Dragon.S01E01.The.Heirs.of.the.Dragon.1080p.WEB-DL.DD5.1.H.264-MiU.mkv",
            "TV Shows/House of the Dragon/Season 01/House of the Dragon - S01E01 - The Heirs of the Dragon [1080p h264].mkv"
        ),
        (
            "TV Shows/Psych (2006) Season 1-8 S01-S08 (1080p AMZN WEB-DL x265 HEVC 10bit AAC 5.1 MONOLITH) REPACK/Season 1/Psych (2006) - S01E01 - Pilot (1080p AMZN WEB-DL x265 MONOLITH).mkv",
            "TV Shows/Psych (2006)/Season 01/Psych (2006) - S01E01 - Pilot [1080p x265].mkv"
        ),
        (
            "TV Shows/Psych (2006) Season 1-8 S01-S08 (1080p AMZN WEB-DL x265 HEVC 10bit AAC 5.1 MONOLITH) REPACK/Season 5/Psych (2006) - S05E14 - The Polarizing Express (1080p AMZN WEB-DL x265 MONOLITH).mkv",
            "TV Shows/Psych (2006)/Season 05/Psych (2006) - S05E14 - The Polarizing Express [1080p x265].mkv"
        ),
        (
            "TV Shows/Red Dwarf S01-S12 1988-2020 1080p BluRay HEVC x265 BONE/Season 1/Red Dwarf S01E01 The End 1080p BluRay HEVC x265 BONE.mkv",
            "TV Shows/Red Dwarf/Season 01/Red Dwarf - S01E01 - The End [1080p x265].mkv"
        ),
        (
            "TV Shows/Red Dwarf S01-S12 1988-2020 1080p BluRay HEVC x265 BONE/Season 3/Red Dwarf S03E02 Marooned 1080p BluRay HEVC x265 BONE.mkv",
            "TV Shows/Red Dwarf/Season 03/Red Dwarf - S03E02 - Marooned [1080p x265].mkv"
        ),
    ];

    for (input_file_path, expected) in data {
        let regex_transforms = tv_show_rules();
        let result = regex_transforms.transform_file_path(input_file_path);
        assert_eq!(expected, result, "\n\tInput: {}", input_file_path);
    }
}

#[test]
fn transform_is_deterministic() {
    let t = tv_show_rules();
    let input = "TV Shows/Atlanta Season 1 Mp4 1080p/Atlanta S01E01.mp4";
    assert_eq!(t.transform_file_path(input), t.transform_file_path(input));
}

#[test]
fn directory_rules_do_not_touch_file_name() {
    let t = one_group(&[], &[], &[("a", "b")], &[]);
    assert_eq!(t.transform_file_path("a/a.txt"), "b/a.txt");
}

#[test]
fn base_file_rules_do_not_touch_directory() {
    let t = one_group(&[], &[("a", "b")], &[], &[]);
    assert_eq!(t.transform_file_path("a/a.txt"), "a/b.txt");
}

#[test]
fn rule_order_within_a_group_matters() {
    let forwards = one_group(&[("a", "b"), ("b", "c")], &[], &[], &[]);
    let backwards = one_group(&[("b", "c"), ("a", "b")], &[], &[], &[]);
    assert_eq!(forwards.transform_file_path("x/a"), "x/c");
    assert_eq!(backwards.transform_file_path("x/a"), "x/b");
}

#[test]
fn empty_rule_set_reinserts_separator_only() {
    let t = empty_rules();
    assert_eq!(t.transform_file_path("a"), "/a");
    assert_eq!(t.transform_file_path("a/b"), "a/b");
    assert_eq!(t.transform_file_path("some dir/some file.mkv"), "some dir/some file.mkv");
    assert_eq!(t.transform_file_path(""), "/");
    assert_eq!(t.transform_file_path("a/"), "a/");
}

#[test]
fn replacement_templates_expand_captures() {
    let t = one_group(&[(r"(\d)-(\d)", "${2}-${1}")], &[], &[], &[]);
    assert_eq!(t.transform_file_path("d/1-2"), "d/2-1");
}

#[test]
fn invalid_pattern_is_reported_at_construction() {
    let r = RegexTransforms::from_groups(
        vec![("[".to_string(), "x".to_string())],
        Vec::new(),
        Vec::new(),
        Vec::new(),
    );
    match r {
        Err(LoadError::InvalidPattern(pattern, message)) => {
            assert_eq!(pattern, "[");
            assert!(!message.is_empty());
        }
        _ => panic!("an unclosed character class must be rejected"),
    }
}

#[test]
fn missing_group_is_reported_by_name() {
    let entries: Vec<(String, Vec<(String, String)>)> = vec![
        ("full_path_regex".to_string(), Vec::new()),
        ("base_file_regex".to_string(), Vec::new()),
        ("post_processing_regex".to_string(), Vec::new()),
    ];
    match RegexTransforms::from_entries(&entries) {
        Err(LoadError::MissingGroup(name)) => assert_eq!(name, "directory_regex"),
        _ => panic!("a configuration without directory_regex must be rejected"),
    }
}

#[test]
fn entries_build_a_working_rule_set() {
    let entries: Vec<(String, Vec<(String, String)>)> = vec![
        ("base_file_regex".to_string(), vec![("b".to_string(), "c".to_string())]),
        ("directory_regex".to_string(), Vec::new()),
        ("full_path_regex".to_string(), vec![("a".to_string(), "b".to_string())]),
        ("post_processing_regex".to_string(), Vec::new()),
    ];
    let t = RegexTransforms::from_entries(&entries).unwrap();
    assert_eq!(t.transform_file_path("a/a"), "b/c");
}
