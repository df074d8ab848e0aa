use fuseshadow::aliases::build_alias_map;
use fuseshadow::config::{
    parse_shadowconfig, serialize_shadowconfig, ConfigError, FolderRename, GitignoreDrop,
    ShadowConfig,
};
use fuseshadow::path::FsPath;

fn strings(ts: &[&str]) -> Vec<String> {
    ts.iter().map(|t| t.to_string()).collect()
}

fn rename(from: &str, to: &str) -> FolderRename {
    FolderRename {
        from: from.to_string(),
        to: to.to_string(),
        at: "2026-05-04T14:32:00Z".to_string(),
    }
}

fn full() -> ShadowConfig {
    let mut c = ShadowConfig::new();
    c.folder_renames = vec![rename("A/B", "A/D"), rename("x", "y z")];
    c.ignore.patterns = strings(&[".git", "*.key"]);
    c.writable.patterns = strings(&[".env"]);
    c.gitignore_drop = vec![
        GitignoreDrop { gitignore: None, patterns: strings(&["*.out", "build/"]) },
        GitignoreDrop {
            gitignore: Some("sub/.gitignore".to_string()),
            patterns: strings(&["dist/"]),
        },
    ];
    c
}

const FULL_TEXT: &str = "# fuseshadow: directory renames detected during agent session.\n# Review and update your .gitignore files, then remove entries below.\nfolder_renames = [\n  { from = \"A/B\", to = \"A/D\", at = \"2026-05-04T14:32:00Z\" },\n  { from = \"x\", to = \"y z\", at = \"2026-05-04T14:32:00Z\" },\n]\n\n[ignore]\npatterns = [\".git\", \"*.key\"]\n\n[writable]\npatterns = [\".env\"]\n\n[[gitignore_drop]]\npatterns = [\"*.out\", \"build/\"]\n\n[[gitignore_drop]]\ngitignore = \"sub/.gitignore\"\npatterns = [\"dist/\"]\n";

fn same(a: &ShadowConfig, b: &ShadowConfig) -> bool {
    a.ignore.patterns == b.ignore.patterns
        && a.writable.patterns == b.writable.patterns
        && a.folder_renames.len() == b.folder_renames.len()
        && a.folder_renames
            .iter()
            .zip(&b.folder_renames)
            .all(|(x, y)| x.from == y.from && x.to == y.to && x.at == y.at)
        && a.gitignore_drop.len() == b.gitignore_drop.len()
        && a.gitignore_drop
            .iter()
            .zip(&b.gitignore_drop)
            .all(|(x, y)| x.gitignore == y.gitignore && x.patterns == y.patterns)
}

fn fault(text: &str) -> ConfigError {
    match parse_shadowconfig(text) {
        Ok(_) => panic!("accepted: {text}"),
        Err(e) => e,
    }
}

fn parsed(text: &str) -> ShadowConfig {
    parse_shadowconfig(text).unwrap_or_else(|e| panic!("{e:?}: {text}"))
}

#[test]
fn serialized_text_is_exact() {
    assert_eq!(serialize_shadowconfig(&full()), FULL_TEXT);
    assert_eq!(serialize_shadowconfig(&ShadowConfig::new()), "");
    let mut c = ShadowConfig::new();
    c.writable.patterns = strings(&["a", "b", "c"]);
    assert_eq!(serialize_shadowconfig(&c), "[writable]\npatterns = [\"a\", \"b\", \"c\"]\n");
}

#[test]
fn what_was_written_is_read_back() {
    assert!(same(&parsed(FULL_TEXT), &full()));
    let mut odd = ShadowConfig::new();
    odd.ignore.patterns = strings(&["", "tab\there", "ünïcode \u{1f600}", "it's", "#no", "[x]"]);
    odd.gitignore_drop = vec![GitignoreDrop { gitignore: Some(String::new()), patterns: vec![] }];
    assert!(same(&parsed(&serialize_shadowconfig(&odd)), &odd));
    assert!(same(&parsed(""), &ShadowConfig::new()));
}

#[test]
fn what_needs_an_escape_gets_one() {
    let mut c = ShadowConfig::new();
    c.ignore.patterns = strings(&["a\"b", "\\#x", "\n\u{1}\u{1f}\u{7f}", "\t\u{80}é"]);
    assert_eq!(
        serialize_shadowconfig(&c),
        "[ignore]\npatterns = [\"a\\\"b\", \"\\\\#x\", \"\\u000a\\u0001\\u001f\\u007f\", \"\t\u{80}é\"]\n"
    );
    assert!(same(&parsed(&serialize_shadowconfig(&c)), &c));
}

#[test]
fn every_character_is_read_back() {
    let mut low = String::new();
    for n in 0..0x300u32 {
        low.push(char::from_u32(n).unwrap());
    }
    let odd = ["\"", "\\", "\"\"\"", "\\\"", "\r\n", "\\u0041", "\u{feff}", "\u{2028}", "\u{10ffff}"];
    let mut c = ShadowConfig::new();
    c.folder_renames = vec![rename(&low, "c")];
    c.folder_renames.extend(odd.iter().map(|t| rename(t, &format!("x{t}y"))));
    c.writable.patterns = strings(&odd);
    c.gitignore_drop =
        odd.iter().map(|t| GitignoreDrop { gitignore: Some(t.to_string()), patterns: strings(&[*t]) }).collect();
    assert!(same(&parsed(&serialize_shadowconfig(&c)), &c));
}

#[test]
fn faults_are_told_apart() {
    assert_eq!(fault("= ["), ConfigError::Syntax);
    assert_eq!(fault("a = 1\na = 2\n"), ConfigError::Syntax);
    for text in [
        "ignore = 1\n",
        "ignore = \"x\"\n",
        "[ignore]\npatterns = \"x\"\n",
        "[ignore]\npatterns = [1]\n",
        "[writable]\npatterns = 1979-05-27\n",
        "folder_renames = 3\n",
        "folder_renames = { from = \"a\" }\n",
        "folder_renames = [ { from = \"a\", to = \"b\" } ]\n",
        "folder_renames = [ { from = \"a\", to = \"b\", at = 1 } ]\n",
        "folder_renames = [ 1979-05-27 ]\n",
        "folder_renames = [ [\"a\", \"b\"] ]\n",
        "[[gitignore_drop]]\ngitignore = \"x\"\n",
        "[[gitignore_drop]]\ngitignore = 1\npatterns = []\n",
        "gitignore_drop = true\n",
    ] {
        assert_eq!(fault(text), ConfigError::Shape, "{text}");
    }
}

#[test]
fn records_can_be_lists_and_unknown_keys_do_not_count() {
    let c = parsed(
        "folder_renames = [ [\"a\", \"b\", \"c\", 4] ]\nignore = [ [\"x\"], 2 ]\nwritable = 1979-05-27\nother = 1\n",
    );
    assert_eq!(c.folder_renames[0].from, "a");
    assert_eq!(c.folder_renames[0].to, "b");
    assert_eq!(c.folder_renames[0].at, "c");
    assert_eq!(c.ignore.patterns, strings(&["x"]));
    assert!(c.writable.patterns.is_empty());
    let keyed = parsed("\"$__toml_private_datetime\" = 1\n[ignore]\npatterns = [\"x\"]\n");
    assert_eq!(keyed.ignore.patterns, strings(&["x"]));
    let empty = parsed("ignore = []\n[writable]\nmore = 1\n");
    assert!(same(&empty, &ShadowConfig::new()));
}

#[test]
fn renames_build_a_flat_table() {
    let renames = vec![rename("A", "B"), rename("B", "C"), rename("X/", "Y")];
    let p = |t: &str| FsPath::from_bytes(t.as_bytes());
    let exact = build_alias_map(&renames, true);
    assert_eq!(exact.len(), 3);
    assert_eq!(exact.get(&p("C")).unwrap().as_bytes(), b"A");
    assert_eq!(exact.get(&p("B")).unwrap().as_bytes(), b"A");
    assert_eq!(exact.get(&p("Y")).unwrap().as_bytes(), b"X/");
    assert!(exact.get(&p("c")).is_none());
    let folded = build_alias_map(&renames, false);
    assert_eq!(folded.get(&p("c")).unwrap().as_bytes(), b"a");
    assert!(folded.get(&p("C")).is_none());
    let back = build_alias_map(&[rename("A", "B"), rename("B", "A")].to_vec(), true);
    assert_eq!(back.get(&p("A")).unwrap().as_bytes(), b"A");
}
