use std::path::Path;

use vortexa::paths::{join_path, parent_path, tokenizer_path, with_extension, Platform};
use vortexa::sorting::sort_names;
use vortexa::text::{
    ends_with, join, lines, lowercase, number_text, pad, parse_number, parse_or, repeat,
    strip_prefix, substitute, trim,
};
use vortexa::train::resolve_checkpoint_paths;

const PATHS: [&str; 22] = [
    "", ".", "..", "/", "//", "a", "a/", "a/b", "a//b/", "/a", "/a/b.txt", "a/.", "a/./b", "./a",
    "data/finewiki.txt", ".hidden", "a/.hidden", "a.b.c", "a/..", "x.", "dir.d/file", "a/b/./.",
];

#[test]
fn parents_are_those_of_paths() {
    for p in PATHS {
        let expected = Path::new(p).parent().map(|d| d.to_str().unwrap().to_string());
        assert_eq!(parent_path(Platform::Unix, p), expected, "{p:?}");
    }
}

#[test]
fn joins_are_those_of_paths() {
    for p in PATHS {
        for name in ["model_config.json", "/etc/c.json", "sub/c.json", "", "\\c", "C:c"] {
            let expected = Path::new(p).join(name);
            let joined = join_path(Platform::Unix, p, name);
            assert_eq!(joined, expected.to_str().unwrap(), "{p:?} {name:?}");
        }
    }
}

#[test]
fn extensions_are_those_of_paths() {
    for p in PATHS {
        let expected = Path::new(p).with_extension("parquet.tmp");
        let extended = with_extension(Platform::Unix, p, "parquet.tmp");
        assert_eq!(extended, expected.to_str().unwrap(), "{p:?}");
    }
    let extended = with_extension(Platform::Unix, "data/finewiki.txt", "parquet.tmp");
    assert_eq!(extended, "data/finewiki.parquet.tmp");
}

#[test]
fn windows_paths_have_two_separators_and_drives() {
    let join = |dir: &str, name: &str| join_path(Platform::Windows, dir, name);
    assert_eq!(join("runs", "a.txt"), "runs\\a.txt");
    assert_eq!(join("runs/", "a.txt"), "runs/a.txt");
    assert_eq!(join("runs\\", "a.txt"), "runs\\a.txt");
    assert_eq!(join("C:", "a.txt"), "C:a.txt");
    assert_eq!(join("C:\\", "a.txt"), "C:\\a.txt");
    assert_eq!(join("C:\\runs", "\\a.txt"), "C:\\a.txt");
    assert_eq!(join("C:\\runs", "D:a.txt"), "D:a.txt");
    assert_eq!(join("", "a.txt"), "a.txt");

    let parent = |p: &str| parent_path(Platform::Windows, p);
    assert_eq!(parent("a\\b"), Some("a".to_string()));
    assert_eq!(parent("a\\b/c\\"), Some("a\\b".to_string()));
    assert_eq!(parent("C:\\b"), Some("C:\\".to_string()));
    assert_eq!(parent("C:b"), Some("C:".to_string()));
    assert_eq!(parent("C:\\"), None);
    assert_eq!(parent("C:"), None);
    assert_eq!(parent("\\"), None);
    assert_eq!(parent_path(Platform::Unix, "a\\b"), Some(String::new()));

    assert_eq!(
        resolve_checkpoint_paths(Platform::Windows, "runs\\best.safetensors", false),
        ("runs\\best.safetensors".to_string(), "runs\\model_config.json".to_string())
    );
    assert_eq!(
        resolve_checkpoint_paths(Platform::Windows, "checkpoints", true).0,
        "checkpoints\\model.safetensors"
    );
    assert_eq!(tokenizer_path(Platform::Windows, "C:\\m.safetensors", false), "C:\\bpe.json");
    assert_eq!(with_extension(Platform::Windows, "d.x\\f", "tmp"), "d.x\\f.tmp");
}

#[test]
fn checkpoint_paths() {
    assert_eq!(
        resolve_checkpoint_paths(Platform::Unix, "checkpoints", true),
        (
            "checkpoints/model.safetensors".to_string(),
            "checkpoints/model_config.json".to_string()
        )
    );
    assert_eq!(
        resolve_checkpoint_paths(Platform::Unix, "runs/best.safetensors", false),
        ("runs/best.safetensors".to_string(), "runs/model_config.json".to_string())
    );
    assert_eq!(
        resolve_checkpoint_paths(Platform::Unix, "best.safetensors", false),
        ("best.safetensors".to_string(), "model_config.json".to_string())
    );
    assert_eq!(
        resolve_checkpoint_paths(Platform::Unix, "/", false),
        ("/".to_string(), "./model_config.json".to_string())
    );
    assert_eq!(tokenizer_path(Platform::Unix, "checkpoints", true), "checkpoints/bpe.json");
    assert_eq!(tokenizer_path(Platform::Unix, "runs/best.safetensors", false), "runs/bpe.json");
}

const TEXTS: [&str; 14] = [
    "", " ", "a", " a b ", "\ta\n", "\u{a0}x\u{2003}", "a\r\nb\n\nc", "\n", "a\n", "x\r", "ÄÖ aBC",
    "{prompt}{prompt}", "Q: {prompt}\nA:", "\u{85}y\u{3000}",
];

#[test]
fn text_functions_are_those_of_strings() {
    for s in TEXTS {
        assert_eq!(trim(s), s.trim(), "{s:?}");
        assert_eq!(lowercase(s), s.to_ascii_lowercase(), "{s:?}");
        let expected: Vec<String> = s.lines().map(|l| l.to_string()).collect();
        assert_eq!(lines(s), expected, "{s:?}");
        assert_eq!(substitute(s, "{prompt}", "{p}"), s.replace("{prompt}", "{p}"), "{s:?}");
        assert_eq!(substitute(s, "a", "aa"), s.replace('a', "aa"), "{s:?}");
        assert_eq!(pad(s, 6), format!("{s:<6}"), "{s:?}");
        for p in ["", "a", " ", "Q: "] {
            assert_eq!(strip_prefix(s, p), s.strip_prefix(p).map(|r| r.to_string()));
            assert_eq!(ends_with(s, p), s.ends_with(p));
        }
    }
    assert_eq!(repeat('─', 3), "───");
    assert_eq!(join(&vec!["a".to_string(), "b".to_string()], ", "), "a, b");
    assert_eq!(join(&Vec::new(), ", "), "");
}

#[test]
fn overlapping_occurrences_are_replaced_from_the_left() {
    assert_eq!(substitute("aaaa", "aa", "b"), "bb");
    assert_eq!(substitute("aaa", "aa", "b"), "ba");
}

#[test]
fn numbers_are_read_as_integers_are() {
    for s in [
        "", "0", "7", "+7", "-7", "007", "18446744073709551615", "18446744073709551616", " 1",
        "1 ", "1_000", "+", "++1", "1e3", "٣", "99999999999999999999999999",
    ] {
        assert_eq!(parse_number(s, u64::MAX), s.parse::<u64>().ok(), "{s:?}");
        assert_eq!(parse_or(s, 42), s.parse::<usize>().unwrap_or(42), "{s:?}");
    }
    for n in [0usize, 9, 10, 1234567890, usize::MAX] {
        assert_eq!(number_text(n), n.to_string());
        assert_eq!(parse_or(&number_text(n), 1), n);
    }
}

#[test]
fn names_sort_as_strings_do() {
    let names: Vec<String> = ["b.txt", "a.txt", "B.txt", "ä.txt", "a.txt", "", "ab", "z"]
        .iter()
        .map(|s| s.to_string())
        .collect();
    let mut expected = names.clone();
    expected.sort();
    assert_eq!(sort_names(names), expected);
}
