use fuseshadow::found::{FoundFile, RuleFile, rule_file};
use fuseshadow::load::{ancestors, ChildConfigs, LoadError};
use fuseshadow::path::FsPath;
use fuseshadow::rules::{PathClass, RuleSet, Stamp};
use std::collections::BTreeMap;

fn path(text: &str) -> FsPath {
    FsPath::from_bytes(text.as_bytes())
}

/// A source tree in memory, below `/outer/source`.
struct Disk {
    files: BTreeMap<String, String>,
    above: Vec<(String, String)>,
    writes: i64,
}

const ROOT: &str = "/outer/source";

impl Disk {
    fn new() -> Disk {
        Disk { files: BTreeMap::new(), above: Vec::new(), writes: 0 }
    }

    fn write(&mut self, rel: &str, content: &str) {
        self.files.insert(rel.to_string(), content.to_string());
        self.writes += 1;
    }

    fn write_above(&mut self, dir: &str, content: &str) {
        self.above.push((dir.to_string(), content.to_string()));
    }

    fn remove(&mut self, rel: &str) {
        self.files.remove(rel);
        self.writes += 1;
    }

    fn has(&self, rel: &str) -> bool {
        self.files.contains_key(rel)
    }

    fn read(&self, rel: &str) -> String {
        self.files[rel].clone()
    }

    fn rename(&mut self, old: &str, new: &str) {
        let prefix = format!("{old}/");
        let moved: Vec<String> =
            self.files.keys().filter(|k| k.starts_with(&prefix)).cloned().collect();
        for k in moved {
            let content = self.files.remove(&k).unwrap();
            self.files.insert(format!("{new}/{}", &k[prefix.len()..]), content);
        }
    }

    fn stamp(&self) -> Stamp {
        match self.files.get(".shadowconfig") {
            Some(c) => Stamp { timed: true, secs: self.writes, nanos: 0, size: c.len() as u64 },
            None => Stamp { timed: false, secs: 0, nanos: 0, size: 0 },
        }
    }

    fn content(&self, rel: &str) -> Option<Vec<u8>> {
        self.files.get(rel).map(|c| c.as_bytes().to_vec())
    }

    /// The rule files at `rel` or below it.
    fn found(&self, rel: &str) -> Vec<FoundFile> {
        let mut out = Vec::new();
        for (k, c) in &self.files {
            if !(rel.is_empty() || k.starts_with(&format!("{rel}/"))) {
                continue;
            }
            let file = path(ROOT).join(&path(k));
            let name = file.file_name().unwrap();
            if rule_file(&name) != RuleFile::Other {
                let dir = file.parent().unwrap();
                out.push(FoundFile { dir, name, content: Some(c.as_bytes().to_vec()) });
            }
        }
        out
    }

    fn load_with(
        &self,
        case_sensitive: bool,
        children: ChildConfigs,
        home: Option<FsPath>,
    ) -> Result<RuleSet, LoadError> {
        let root = path(ROOT);
        let mut above = Vec::new();
        for dir in ancestors(&root) {
            for (d, c) in &self.above {
                if dir.same(&path(d)) {
                    above.push(FoundFile {
                        dir: dir.clone(),
                        name: b".gitignore".to_vec(),
                        content: Some(c.as_bytes().to_vec()),
                    });
                }
            }
        }
        let tree = self.found("");
        RuleSet::load(&root, &above, &tree, self.stamp(), case_sensitive, children, &home)
    }

    fn load(&self, case_sensitive: bool) -> Result<RuleSet, LoadError> {
        self.load_with(case_sensitive, ChildConfigs::Compose, None)
    }

    fn rules(&self, case_sensitive: bool) -> RuleSet {
        match self.load(case_sensitive) {
            Ok(r) => r,
            Err(e) => panic!("{}", e.describe()),
        }
    }

    fn classify(&self, rs: &mut RuleSet, rel: &str, is_dir: bool) -> PathClass {
        let now = self.stamp();
        if rs.shadowconfig_changed(now) {
            let news = rs.check_shadowconfig_changes(now, &self.content(".shadowconfig"));
            for (from, to) in news {
                let found = self.found(&to);
                rs.refresh_child_matchers_for_external(&path(&from), &path(&to), &found);
            }
        }
        rs.classify(&path(rel), is_dir)
    }

    fn rename_tracked(&mut self, rs: &mut RuleSet, old: &str, new: &str) {
        self.rename(old, new);
        let content = Some(self.content(".shadowconfig").unwrap_or_default());
        let found = self.found(new);
        let text = rs
            .handle_directory_rename(
                &path(old),
                &path(new),
                &found,
                &content,
                "2026-05-04T14:32:00Z",
            )
            .unwrap();
        self.write(".shadowconfig", &text);
        rs.rename_recorded(&path(old), &path(new), self.stamp());
    }
}

/// The original name of a renamed directory.
fn alias(rs: &RuleSet, dir: &str) -> Option<String> {
    rs.rename_aliases()
        .get(&path(dir))
        .map(|p| String::from_utf8(p.as_bytes().to_vec()).unwrap())
}

// ---- Case-sensitive tests ----

#[test]
fn gitignored_path_should_be_blocked() {
    let mut disk = Disk::new();
    disk.write(".gitignore", "*.log\n");
    disk.write("app.log", "");
    disk.write("main.rs", "");

    let mut rs = disk.rules(true);
    assert_eq!(disk.classify(&mut rs, "app.log", false), PathClass::Blocked);
    assert_eq!(disk.classify(&mut rs, "main.rs", false), PathClass::Passthrough);
}

#[test]
fn nested_gitignore_should_apply_only_to_its_subtree() {
    let mut disk = Disk::new();
    disk.write("sub/.gitignore", "*.log\n");
    disk.write("sub/foo.log", "");
    disk.write("foo.log", "");

    let mut rs = disk.rules(true);
    assert_eq!(
        disk.classify(&mut rs, "sub/foo.log", false),
        PathClass::Blocked
    );
    assert_eq!(disk.classify(&mut rs, "foo.log", false), PathClass::Passthrough);
}

#[test]
fn parent_gitignore_should_apply_to_source_root() {
    let mut disk = Disk::new();
    disk.write_above("/outer", "*.secret\n");
    disk.write("config.secret", "");

    let mut rs = disk.rules(true);
    assert_eq!(
        disk.classify(&mut rs, "config.secret", false),
        PathClass::Blocked
    );
}

#[test]
fn shadowconfig_ignore_pattern_should_hide_matching_paths() {
    let mut disk = Disk::new();
    disk.write(".shadowconfig", "[ignore]\npatterns = [\".git\"]\n");
    disk.write(".git/HEAD", "ref: refs/heads/main");

    let mut rs = disk.rules(true);
    assert_eq!(disk.classify(&mut rs, ".git", true), PathClass::Hidden);
}

#[test]
fn writable_gitignored_path_should_be_writable_overlay() {
    let mut disk = Disk::new();
    disk.write(".gitignore", ".env\n");
    disk.write(".shadowconfig",
        "[writable]\npatterns = [\".env\"]\n",
    );
    disk.write(".env", "SECRET=value");

    let mut rs = disk.rules(true);
    assert_eq!(disk.classify(&mut rs, ".env", false), PathClass::WritableOverlay);
}

#[test]
fn writable_not_gitignored_should_be_passthrough() {
    let mut disk = Disk::new();
    disk.write(".shadowconfig",
        "[writable]\npatterns = [\"config.json\"]\n",
    );
    disk.write("config.json", "{}");

    let mut rs = disk.rules(true);
    assert_eq!(
        disk.classify(&mut rs, "config.json", false),
        PathClass::Passthrough
    );
}

#[test]
fn ignore_should_beat_writable_when_both_match() {
    let mut disk = Disk::new();
    disk.write(".gitignore", ".env\n");
    disk.write(".shadowconfig",
        "[ignore]\npatterns = [\".env\"]\n\n[writable]\npatterns = [\".env\"]\n",
    );
    disk.write(".env", "SECRET=value");

    let mut rs = disk.rules(true);
    assert_eq!(disk.classify(&mut rs, ".env", false), PathClass::Hidden);
}

#[test]
fn shadowconfig_itself_should_always_be_hidden() {
    let mut disk = Disk::new();
    disk.write(".shadowconfig", "[ignore]\npatterns = []\n");

    let mut rs = disk.rules(true);
    assert_eq!(
        disk.classify(&mut rs, ".shadowconfig", false),
        PathClass::Hidden
    );
}

#[test]
fn gitignore_file_should_be_gitignore_class() {
    let mut disk = Disk::new();
    disk.write(".gitignore", "*.log\n");

    let mut rs = disk.rules(true);
    assert_eq!(
        disk.classify(&mut rs, ".gitignore", false),
        PathClass::GitignoreFile
    );
}

#[test]
fn unmatched_file_should_be_passthrough() {
    let mut disk = Disk::new();
    disk.write("src/main.rs", "fn main() {}");

    let mut rs = disk.rules(true);
    assert_eq!(
        disk.classify(&mut rs, "src/main.rs", false),
        PathClass::Passthrough
    );
}

#[test]
fn dir_only_gitignore_pattern_respects_is_dir_hint() {
    let mut disk = Disk::new();
    disk.write(".gitignore", "build/\n");

    let mut rs = disk.rules(true);
    assert_eq!(
        disk.classify(&mut rs, "build", true),
        PathClass::Blocked
    );
    assert_eq!(
        disk.classify(&mut rs, "build", false),
        PathClass::Passthrough
    );
}

#[test]
fn hint_true_blocks_nonexistent_dir_pattern() {
    let mut disk = Disk::new();
    disk.write(".gitignore", "output/\n");

    let mut rs = disk.rules(true);
    assert_eq!(
        disk.classify(&mut rs, "output", false),
        PathClass::Passthrough
    );
    assert_eq!(
        disk.classify(&mut rs, "output", true),
        PathClass::Blocked
    );
}

#[test]
fn nested_shadowconfig_itself_should_be_hidden() {
    let mut disk = Disk::new();
    disk.write("sub/.shadowconfig", "[ignore]\npatterns = []\n");

    let mut rs = disk.rules(true);
    assert_eq!(
        disk.classify(&mut rs, "sub/.shadowconfig", false),
        PathClass::Hidden
    );
}

#[test]
fn nested_gitignore_should_be_gitignore_class() {
    let mut disk = Disk::new();
    disk.write("sub/.gitignore", "*.tmp\n");

    let mut rs = disk.rules(true);
    assert_eq!(
        disk.classify(&mut rs, "sub/.gitignore", false),
        PathClass::GitignoreFile
    );
}

#[test]
fn multiple_shadowconfigs_compose_across_levels() {
    let mut disk = Disk::new();
    disk.write(".gitignore", ".env\ncredentials.json\n");
    disk.write(".shadowconfig", "[ignore]\npatterns = [\".git\"]\n[writable]\npatterns = [\".env\"]\n");
    disk.write("sub/.shadowconfig", "[ignore]\npatterns = [\"internal\"]\n[writable]\npatterns = [\"credentials.json\"]\n");
    disk.write(".env", "SECRET=x");
    disk.write("sub/credentials.json", "{}");

    let mut rs = disk.rules(true);
    assert_eq!(disk.classify(&mut rs, ".git", true), PathClass::Hidden);
    assert_eq!(disk.classify(&mut rs, ".env", false), PathClass::WritableOverlay);
    assert_eq!(disk.classify(&mut rs, "sub/internal", true), PathClass::Hidden);
    assert_eq!(disk.classify(&mut rs, "sub/credentials.json", false), PathClass::WritableOverlay);
    assert_eq!(disk.classify(&mut rs, ".env", false), PathClass::WritableOverlay);
}

// ---- Case-insensitive tests ----

#[test]
fn ci_gitignored_blocked_via_alternate_case() {
    let mut disk = Disk::new();
    disk.write(".gitignore", ".env\n");
    disk.write(".env", "SECRET=x");

    let mut rs = disk.rules(false);
    assert_eq!(disk.classify(&mut rs, ".env", false), PathClass::Blocked);
    assert_eq!(disk.classify(&mut rs, ".ENV", false), PathClass::Blocked);
    assert_eq!(disk.classify(&mut rs, ".Env", false), PathClass::Blocked);
    assert_eq!(disk.classify(&mut rs, ".eNv", false), PathClass::Blocked);
}

#[test]
fn ci_writable_overlay_via_alternate_case() {
    let mut disk = Disk::new();
    disk.write(".gitignore", ".env\n");
    disk.write(".shadowconfig", "[writable]\npatterns = [\".env\"]\n");
    disk.write(".env", "SECRET=x");

    let mut rs = disk.rules(false);
    assert_eq!(disk.classify(&mut rs, ".env", false), PathClass::WritableOverlay);
    assert_eq!(disk.classify(&mut rs, ".ENV", false), PathClass::WritableOverlay);
    assert_eq!(disk.classify(&mut rs, ".Env", false), PathClass::WritableOverlay);
}

#[test]
fn ci_ignore_hides_via_alternate_case() {
    let mut disk = Disk::new();
    disk.write(".shadowconfig", "[ignore]\npatterns = [\".git\"]\n");

    let mut rs = disk.rules(false);
    assert_eq!(disk.classify(&mut rs, ".git", true), PathClass::Hidden);
    assert_eq!(disk.classify(&mut rs, ".GIT", true), PathClass::Hidden);
    assert_eq!(disk.classify(&mut rs, ".Git", true), PathClass::Hidden);
}

#[test]
fn ci_shadowconfig_hidden_via_alternate_case() {
    let mut disk = Disk::new();
    disk.write(".shadowconfig", "[ignore]\npatterns = []\n");

    let mut rs = disk.rules(false);
    assert_eq!(disk.classify(&mut rs, ".shadowconfig", false), PathClass::Hidden);
    assert_eq!(disk.classify(&mut rs, ".SHADOWCONFIG", false), PathClass::Hidden);
    assert_eq!(disk.classify(&mut rs, ".ShadowConfig", false), PathClass::Hidden);
}

#[test]
fn ci_gitignore_file_via_alternate_case() {
    let mut disk = Disk::new();
    disk.write(".gitignore", "*.log\n");

    let mut rs = disk.rules(false);
    assert_eq!(disk.classify(&mut rs, ".gitignore", false), PathClass::GitignoreFile);
    assert_eq!(disk.classify(&mut rs, ".GITIGNORE", false), PathClass::GitignoreFile);
    assert_eq!(disk.classify(&mut rs, ".GitIgnore", false), PathClass::GitignoreFile);
}

#[test]
fn ci_glob_pattern_matches_alternate_case() {
    let mut disk = Disk::new();
    disk.write(".gitignore", "*.LOG\n");
    disk.write("app.log", "");

    let mut rs = disk.rules(false);
    assert_eq!(disk.classify(&mut rs, "app.log", false), PathClass::Blocked);
    assert_eq!(disk.classify(&mut rs, "APP.LOG", false), PathClass::Blocked);
    assert_eq!(disk.classify(&mut rs, "App.Log", false), PathClass::Blocked);
}

#[test]
fn cs_does_not_match_alternate_case() {
    let mut disk = Disk::new();
    disk.write(".gitignore", ".env\n");
    disk.write(".env", "SECRET=x");

    let mut rs = disk.rules(true);
    assert_eq!(disk.classify(&mut rs, ".env", false), PathClass::Blocked);
    assert_eq!(disk.classify(&mut rs, ".ENV", false), PathClass::Passthrough);
    assert_eq!(disk.classify(&mut rs, ".Env", false), PathClass::Passthrough);
}

#[test]
fn ci_ignore_beats_writable_via_alternate_case() {
    let mut disk = Disk::new();
    disk.write(".gitignore", ".env\n");
    disk.write(".shadowconfig", "[ignore]\npatterns = [\".env\"]\n\n[writable]\npatterns = [\".env\"]\n");
    disk.write(".env", "SECRET=x");

    let mut rs = disk.rules(false);
    assert_eq!(disk.classify(&mut rs, ".ENV", false), PathClass::Hidden);
    assert_eq!(disk.classify(&mut rs, ".Env", false), PathClass::Hidden);
}

#[test]
fn ci_nested_gitignore_via_alternate_case() {
    let mut disk = Disk::new();
    disk.write("sub/.gitignore", "*.secret\n");
    disk.write("sub/data.secret", "");

    let mut rs = disk.rules(false);
    assert_eq!(disk.classify(&mut rs, "sub/data.secret", false), PathClass::Blocked);
    assert_eq!(disk.classify(&mut rs, "sub/DATA.SECRET", false), PathClass::Blocked);
    assert_eq!(disk.classify(&mut rs, "SUB/data.secret", false), PathClass::Blocked);
}

#[test]
fn ci_parent_gitignore_via_alternate_case() {
    let mut disk = Disk::new();
    disk.write_above("/outer", "*.secret\n");
    disk.write("config.secret", "");

    let mut rs = disk.rules(false);
    assert_eq!(disk.classify(&mut rs, "config.secret", false), PathClass::Blocked);
    assert_eq!(disk.classify(&mut rs, "CONFIG.SECRET", false), PathClass::Blocked);
    assert_eq!(disk.classify(&mut rs, "Config.Secret", false), PathClass::Blocked);
}

#[test]
fn ci_dir_only_pattern_with_alternate_case() {
    let mut disk = Disk::new();
    disk.write(".gitignore", "build/\n");

    let mut rs = disk.rules(false);
    assert_eq!(disk.classify(&mut rs, "build", true), PathClass::Blocked);
    assert_eq!(disk.classify(&mut rs, "BUILD", true), PathClass::Blocked);
    assert_eq!(disk.classify(&mut rs, "Build", true), PathClass::Blocked);
    assert_eq!(disk.classify(&mut rs, "BUILD", false), PathClass::Passthrough);
}

// ---- folder_renames tests ----

#[test]
fn folder_renames_single_entry_builds_alias() {
    let mut disk = Disk::new();
    disk.write(".shadowconfig",
        "folder_renames = [\n  { from = \"A/B\", to = \"A/D\", at = \"2026-05-04T14:32:00Z\" },\n]\n",
    );

    let mut rs = disk.rules(true);
    assert_eq!(
        alias(&rs, "A/D"),
        Some("A/B".to_string())
    );
    assert_eq!(rs.rename_aliases().len(), 1);
}

#[test]
fn folder_renames_chain_resolves_to_flat_map() {
    let mut disk = Disk::new();
    disk.write(".shadowconfig",
        "folder_renames = [\n  { from = \"A\", to = \"B\", at = \"2026-05-04T14:00:00Z\" },\n  { from = \"B\", to = \"C\", at = \"2026-05-04T14:01:00Z\" },\n]\n",
    );

    let mut rs = disk.rules(true);
    assert_eq!(
        alias(&rs, "B"),
        Some("A".to_string())
    );
    assert_eq!(
        alias(&rs, "C"),
        Some("A".to_string())
    );
    assert_eq!(rs.rename_aliases().len(), 2);
}

#[test]
fn folder_renames_nested_shadowconfig_rejected() {
    let mut disk = Disk::new();
    disk.write(".shadowconfig", "[ignore]\npatterns = []\n");
    disk.write("sub/.shadowconfig",
        "folder_renames = [\n  { from = \"X\", to = \"Y\", at = \"2026-05-04T14:00:00Z\" },\n]\n",
    );

    let msg = match disk.load(true) {
        Ok(_) => panic!("the nested configuration was accepted"),
        Err(e) => e.describe(),
    };
    assert!(
        msg.contains("folder_renames"),
        "expected error about folder_renames, got: {msg}"
    );
    assert!(
        msg.contains("root"),
        "expected mention of root .shadowconfig, got: {msg}"
    );
}

#[test]
fn folder_renames_missing_field_is_noop() {
    let mut disk = Disk::new();
    disk.write(".shadowconfig", "[ignore]\npatterns = [\".git\"]\n");

    let mut rs = disk.rules(true);
    assert!(rs.rename_aliases().is_empty());
    assert_eq!(disk.classify(&mut rs, ".git", true), PathClass::Hidden);
}

#[test]
fn folder_renames_empty_list_is_noop() {
    let mut disk = Disk::new();
    disk.write(".shadowconfig", "folder_renames = []\n");

    let mut rs = disk.rules(true);
    assert!(rs.rename_aliases().is_empty());
}

// ---- Alias-aware classification tests ----

#[test]
fn alias_blocks_renamed_dir_via_parent_gitignore() {
    let mut disk = Disk::new();
    // Root .gitignore blocks "creds/" directory
    disk.write(".gitignore", "creds/\n");
    // On disk, "creds" was renamed to "secrets"
    disk.write("secrets/api.key", "secret-key");
    disk.write(".shadowconfig",
        "folder_renames = [\n  { from = \"creds\", to = \"secrets\", at = \"2026-05-04T14:32:00Z\" },\n]\n",
    );

    let mut rs = disk.rules(true);
    assert_eq!(disk.classify(&mut rs, "secrets", true), PathClass::Blocked);
    assert_eq!(
        disk.classify(&mut rs, "secrets/api.key", false),
        PathClass::Blocked
    );
}

#[test]
fn alias_original_path_still_blocked() {
    let mut disk = Disk::new();
    disk.write(".gitignore", "creds/\n");
    // Both old and new dirs exist (edge case)
    disk.write("creds/api.key", "secret-key");
    disk.write(".shadowconfig",
        "folder_renames = [\n  { from = \"creds\", to = \"secrets\", at = \"2026-05-04T14:32:00Z\" },\n]\n",
    );

    let mut rs = disk.rules(true);
    // Original path is blocked by direct gitignore match (no alias needed)
    assert_eq!(disk.classify(&mut rs, "creds", true), PathClass::Blocked);
    assert_eq!(
        disk.classify(&mut rs, "creds/api.key", false),
        PathClass::Blocked
    );
}

#[test]
fn alias_chain_blocks_final_renamed_path() {
    let mut disk = Disk::new();
    disk.write(".gitignore", "original/\n");
    disk.write("final_name/secret.txt", "");
    disk.write(".shadowconfig",
        "folder_renames = [\n  { from = \"original\", to = \"intermediate\", at = \"2026-05-04T14:00:00Z\" },\n  { from = \"intermediate\", to = \"final_name\", at = \"2026-05-04T14:01:00Z\" },\n]\n",
    );

    let mut rs = disk.rules(true);
    // final_name → original via chain; should be blocked
    assert_eq!(
        disk.classify(&mut rs, "final_name", true),
        PathClass::Blocked
    );
    assert_eq!(
        disk.classify(&mut rs, "final_name/secret.txt", false),
        PathClass::Blocked
    );
    // intermediate → original; also blocked
    assert_eq!(
        disk.classify(&mut rs, "intermediate", true),
        PathClass::Blocked
    );
}

#[test]
fn alias_unrelated_paths_unaffected() {
    let mut disk = Disk::new();
    disk.write(".gitignore", "creds/\n");
    disk.write("src/main.rs", "fn main() {}");
    disk.write(".shadowconfig",
        "folder_renames = [\n  { from = \"creds\", to = \"secrets\", at = \"2026-05-04T14:32:00Z\" },\n]\n",
    );

    let mut rs = disk.rules(true);
    assert_eq!(
        disk.classify(&mut rs, "src", true),
        PathClass::Passthrough
    );
    assert_eq!(
        disk.classify(&mut rs, "src/main.rs", false),
        PathClass::Passthrough
    );
}

#[test]
fn ci_alias_blocks_renamed_path() {
    let mut disk = Disk::new();
    disk.write(".gitignore", "Creds/\n");
    disk.write("secrets/api.key", "");
    disk.write(".shadowconfig",
        "folder_renames = [\n  { from = \"Creds\", to = \"Secrets\", at = \"2026-05-04T14:32:00Z\" },\n]\n",
    );

    let mut rs = disk.rules(false);
    assert_eq!(disk.classify(&mut rs, "secrets", true), PathClass::Blocked);
    assert_eq!(disk.classify(&mut rs, "SECRETS", true), PathClass::Blocked);
    assert_eq!(
        disk.classify(&mut rs, "Secrets/api.key", false),
        PathClass::Blocked
    );
}

#[test]
fn alias_nested_gitignore_pattern_blocks_via_parent() {
    let mut disk = Disk::new();
    // Pattern in root .gitignore references a path under a directory
    disk.write(".gitignore", "config/secrets/*.key\n");
    // "config" was renamed to "settings" on disk
    disk.write("settings/secrets/api.key", "");
    disk.write("settings/secrets/readme.txt", "");
    disk.write(".shadowconfig",
        "folder_renames = [\n  { from = \"config\", to = \"settings\", at = \"2026-05-04T14:32:00Z\" },\n]\n",
    );

    let mut rs = disk.rules(true);
    // *.key under the renamed path should be blocked
    assert_eq!(
        disk.classify(&mut rs, "settings/secrets/api.key", false),
        PathClass::Blocked
    );
    // Non-matching files should still be passthrough
    assert_eq!(
        disk.classify(&mut rs, "settings/secrets/readme.txt", false),
        PathClass::Passthrough
    );
}

#[test]
fn folder_renames_preserves_existing_config_sections() {
    let mut disk = Disk::new();
    disk.write(".gitignore", ".env\n");
    // folder_renames must appear before section headers in TOML
    disk.write(".shadowconfig",
        "folder_renames = [\n  { from = \"old\", to = \"new\", at = \"2026-05-04T14:00:00Z\" },\n]\n\n[ignore]\npatterns = [\".git\"]\n\n[writable]\npatterns = [\".env\"]\n",
    );
    disk.write(".env", "SECRET=x");

    let mut rs = disk.rules(true);
    assert_eq!(disk.classify(&mut rs, ".git", true), PathClass::Hidden);
    assert_eq!(disk.classify(&mut rs, ".env", false), PathClass::WritableOverlay);
    assert_eq!(
        alias(&rs, "new"),
        Some("old".to_string())
    );
}

// ---- Runtime rename tracking + persistence tests ----

#[test]
fn handle_rename_adds_alias_and_blocks_new_path() {
    let mut disk = Disk::new();
    disk.write(".gitignore", "creds/\n");
    disk.write("creds/secret.key", "secret");

    let mut rs = disk.rules(true);
    assert_eq!(disk.classify(&mut rs, "creds", true), PathClass::Blocked);

    disk.rename_tracked(&mut rs, "creds", "secrets");

    assert_eq!(disk.classify(&mut rs, "secrets", true), PathClass::Blocked);
    assert_eq!(
        disk.classify(&mut rs, "secrets/secret.key", false),
        PathClass::Blocked
    );
}

#[test]
fn handle_rename_refreshes_child_gitignore_matchers() {
    let mut disk = Disk::new();
    disk.write("mydir/.gitignore", "*.secret\n");
    disk.write("mydir/data.secret", "sensitive");
    disk.write("mydir/code.rs", "fn main() {}");

    let mut rs = disk.rules(true);
    assert_eq!(
        disk.classify(&mut rs, "mydir/data.secret", false),
        PathClass::Blocked
    );

    disk.rename_tracked(&mut rs, "mydir", "renamed");

    assert_eq!(
        disk.classify(&mut rs, "renamed/data.secret", false),
        PathClass::Blocked
    );
    assert_eq!(
        disk.classify(&mut rs, "renamed/code.rs", false),
        PathClass::Passthrough
    );
}

#[test]
fn handle_rename_persists_to_shadowconfig() {
    let mut disk = Disk::new();
    disk.write(".gitignore", "creds/\n");

    let mut rs = disk.rules(true);
    disk.rename_tracked(&mut rs, "creds", "secrets");

    let content = disk.read(".shadowconfig");
    assert!(content.contains("folder_renames"));
    assert!(content.contains("creds"));
    assert!(content.contains("secrets"));
    assert!(content.contains("T"));
    assert!(content.contains("Z"));
}

#[test]
fn handle_rename_creates_shadowconfig_if_missing() {
    let mut disk = Disk::new();
    disk.write(".gitignore", "creds/\n");

    let mut rs = disk.rules(true);
    assert!(!disk.has(".shadowconfig"));

    disk.rename_tracked(&mut rs, "creds", "secrets");

    assert!(disk.has(".shadowconfig"));
    let content = disk.read(".shadowconfig");
    assert!(content.contains("folder_renames"));
}

#[test]
fn handle_rename_preserves_existing_config() {
    let mut disk = Disk::new();
    disk.write(".gitignore", "creds/\n.env\n");
    disk.write(".shadowconfig",
        "[ignore]\npatterns = [\".git\"]\n\n[writable]\npatterns = [\".env\"]\n",
    );
    disk.write(".env", "SECRET=x");

    let mut rs = disk.rules(true);
    disk.rename_tracked(&mut rs, "creds", "secrets");

    let content = disk.read(".shadowconfig");
    assert!(content.contains("folder_renames"));
    assert!(content.contains("[ignore]"));
    assert!(content.contains(".git"));
    assert!(content.contains("[writable]"));
    assert!(content.contains(".env"));

    // Verify the rewritten config still works when reloaded
    let mut new_rs = disk.rules(true);
    assert_eq!(disk.classify(&mut new_rs, ".git", true), PathClass::Hidden);
    assert_eq!(
        disk.classify(&mut new_rs, ".env", false),
        PathClass::WritableOverlay
    );
    assert_eq!(
        alias(&new_rs, "secrets"),
        Some("creds".to_string())
    );
}

#[test]
fn handle_rename_uses_flock_for_concurrent_access() {
    let mut disk = Disk::new();
    disk.write(".gitignore", "a/\nb/\n");

    let mut rs = disk.rules(true);

    disk.rename_tracked(&mut rs, "a", "x");

    disk.rename_tracked(&mut rs, "b", "y");

    // Both renames should be persisted
    let content = disk.read(".shadowconfig");
    assert!(content.contains("\"a\""));
    assert!(content.contains("\"x\""));
    assert!(content.contains("\"b\""));
    assert!(content.contains("\"y\""));

    // Both aliases should work
    assert_eq!(disk.classify(&mut rs, "x", true), PathClass::Blocked);
    assert_eq!(disk.classify(&mut rs, "y", true), PathClass::Blocked);
}

// ---- Live mtime monitoring tests ----

#[test]
fn mtime_monitor_removes_alias_on_external_deletion() {
    let mut disk = Disk::new();
    disk.write(".gitignore", "creds/\n");
    disk.write("secrets/api.key", "secret-key");
    disk.write(".shadowconfig",
        "folder_renames = [\n  { from = \"creds\", to = \"secrets\", at = \"2026-05-04T14:32:00Z\" },\n]\n",
    );

    let mut rs = disk.rules(true);
    assert_eq!(disk.classify(&mut rs, "secrets", true), PathClass::Blocked);

    // Externally remove the folder_renames entry
    disk.write(".shadowconfig", "");

    // Next classify should detect the change and drop the alias
    assert_eq!(disk.classify(&mut rs, "secrets", true), PathClass::Passthrough);
    assert!(rs.rename_aliases().is_empty());
}

#[test]
fn mtime_monitor_adds_alias_on_external_addition() {
    let mut disk = Disk::new();
    disk.write(".gitignore", "creds/\n");
    disk.write("secrets/api.key", "secret-key");

    let mut rs = disk.rules(true);
    assert_eq!(disk.classify(&mut rs, "secrets", true), PathClass::Passthrough);

    // Externally add a folder_renames entry
    disk.write(".shadowconfig",
        "folder_renames = [\n  { from = \"creds\", to = \"secrets\", at = \"2026-05-04T14:32:00Z\" },\n]\n",
    );

    // Next classify should detect the change and add the alias
    assert_eq!(disk.classify(&mut rs, "secrets", true), PathClass::Blocked);
    assert_eq!(
        disk.classify(&mut rs, "secrets/api.key", false),
        PathClass::Blocked
    );
}

#[test]
fn mtime_monitor_refreshes_child_matchers_for_new_entry() {
    let mut disk = Disk::new();
    // A directory was renamed externally before we mounted, but no folder_renames existed at mount time
    // The child .gitignore matchers were loaded from "renamed/" at mount time
    disk.write("renamed/.gitignore", "*.secret\n");
    disk.write("renamed/data.secret", "sensitive");
    disk.write("renamed/code.rs", "fn main() {}");

    let mut rs = disk.rules(true);
    // Child matchers from renamed/.gitignore work directly
    assert_eq!(
        disk.classify(&mut rs, "renamed/data.secret", false),
        PathClass::Blocked
    );

    // Externally add a folder_renames entry (simulating another instance)
    disk.write(".shadowconfig",
        "folder_renames = [\n  { from = \"original\", to = \"renamed\", at = \"2026-05-04T14:32:00Z\" },\n]\n",
    );

    // After mtime refresh, child matchers should be re-read and still work
    assert_eq!(
        disk.classify(&mut rs, "renamed/data.secret", false),
        PathClass::Blocked
    );
    assert_eq!(
        disk.classify(&mut rs, "renamed/code.rs", false),
        PathClass::Passthrough
    );
}

#[test]
fn mtime_monitor_no_reparse_when_unchanged() {
    let mut disk = Disk::new();
    disk.write(".gitignore", "creds/\n");
    disk.write(".shadowconfig",
        "folder_renames = [\n  { from = \"creds\", to = \"secrets\", at = \"2026-05-04T14:32:00Z\" },\n]\n",
    );

    let mut rs = disk.rules(true);
    // Multiple classify calls without file change should be consistent
    assert_eq!(disk.classify(&mut rs, "secrets", true), PathClass::Blocked);
    assert_eq!(disk.classify(&mut rs, "secrets", true), PathClass::Blocked);
    assert_eq!(disk.classify(&mut rs, "secrets", true), PathClass::Blocked);
}

#[test]
fn mtime_monitor_handles_shadowconfig_deletion() {
    let mut disk = Disk::new();
    disk.write(".gitignore", "creds/\n");
    disk.write(".shadowconfig",
        "folder_renames = [\n  { from = \"creds\", to = \"secrets\", at = \"2026-05-04T14:32:00Z\" },\n]\n",
    );

    let mut rs = disk.rules(true);
    assert_eq!(disk.classify(&mut rs, "secrets", true), PathClass::Blocked);

    // Delete the .shadowconfig entirely
    disk.remove(".shadowconfig");

    // Alias should be gone
    assert_eq!(disk.classify(&mut rs, "secrets", true), PathClass::Passthrough);
}

#[test]
fn mtime_monitor_new_entry_among_existing_only_refreshes_new() {
    let mut disk = Disk::new();
    disk.write(".gitignore", "creds/\ndata/\n");
    disk.write("info/.gitignore", "*.key\n");
    disk.write("info/api.key", "secret");
    disk.write(".shadowconfig",
        "folder_renames = [\n  { from = \"creds\", to = \"secrets\", at = \"2026-05-04T14:00:00Z\" },\n]\n",
    );

    let mut rs = disk.rules(true);
    assert_eq!(disk.classify(&mut rs, "secrets", true), PathClass::Blocked);

    // Externally add a second entry while keeping the first
    disk.write(".shadowconfig",
        "folder_renames = [\n  { from = \"creds\", to = \"secrets\", at = \"2026-05-04T14:00:00Z\" },\n  { from = \"data\", to = \"info\", at = \"2026-05-04T14:01:00Z\" },\n]\n",
    );

    // Both aliases should work
    assert_eq!(disk.classify(&mut rs, "secrets", true), PathClass::Blocked);
    assert_eq!(disk.classify(&mut rs, "info", true), PathClass::Blocked);
    // Child matchers from info/ should still work after re-read
    assert_eq!(
        disk.classify(&mut rs, "info/api.key", false),
        PathClass::Blocked
    );
}

// ---- What a load refuses, skips and takes out ----

fn refused(disk: &Disk, children: ChildConfigs) -> String {
    match disk.load_with(true, children, None) {
        Ok(_) => panic!("loaded"),
        Err(e) => e.describe(),
    }
}

#[test]
fn load_names_the_file_that_cannot_be_parsed() {
    let mut disk = Disk::new();
    disk.write(".shadowconfig", "= [");
    assert_eq!(refused(&disk, ChildConfigs::Compose), "parsing /outer/source/.shadowconfig");
}

#[test]
fn load_names_the_file_that_cannot_be_read() {
    let tree = vec![
        FoundFile { dir: path("/r/b"), name: b".gitignore".to_vec(), content: None },
        FoundFile { dir: path("/r"), name: b".shadowconfig".to_vec(), content: Some(vec![0xff]) },
    ];
    let stamp = Stamp { timed: false, secs: 0, nanos: 0, size: 0 };
    let out =
        RuleSet::load(&path("/r"), &vec![], &tree, stamp, true, ChildConfigs::Compose, &None);
    match out {
        Err(e) => assert_eq!(e.describe(), "reading /r/.shadowconfig"),
        Ok(_) => panic!("loaded"),
    }
}

#[test]
fn nested_renames_name_both_files() {
    let mut disk = Disk::new();
    disk.write("sub/.shadowconfig", "folder_renames = [ { from = \"a\", to = \"b\", at = \"c\" } ]\n");
    assert_eq!(
        refused(&disk, ChildConfigs::Compose),
        "/outer/source/sub/.shadowconfig contains folder_renames, which is only allowed in the root .shadowconfig. Please move these entries to /outer/source/.shadowconfig or remove them."
    );
}

#[test]
fn nested_config_can_be_rejected_or_skipped() {
    let mut disk = Disk::new();
    disk.write(".shadowconfig", "[ignore]\npatterns = [\"top\"]\n");
    disk.write("sub/.shadowconfig", "[ignore]\npatterns = [\"inner\"]\n");
    assert_eq!(
        refused(&disk, ChildConfigs::Reject),
        "/outer/source/sub/.shadowconfig is not at the source root: only the root-level .shadowconfig is supported."
    );
    let rs = disk.load_with(true, ChildConfigs::Skip, None).ok().unwrap();
    assert_eq!(rs.classify(&path("sub/inner"), false), PathClass::Passthrough);
    assert_eq!(rs.classify(&path("sub/top"), false), PathClass::Hidden);
    disk.remove("sub/.shadowconfig");
    assert!(disk.load_with(true, ChildConfigs::Reject, None).is_ok());
}

#[test]
fn drops_reach_files_by_absolute_and_home_paths() {
    let mut disk = Disk::new();
    disk.write_above("/outer", "*.a\n*.b\n*.c\n");
    disk.write(
        ".shadowconfig",
        "[[gitignore_drop]]\ngitignore = \"/outer/.gitignore\"\npatterns = [\"*.a\"]\n[[gitignore_drop]]\ngitignore = \"~/.gitignore\"\npatterns = [\"*.b\"]\n",
    );
    let home = Some(path("/outer"));
    let rs = disk.load_with(true, ChildConfigs::Reject, home).ok().unwrap();
    assert_eq!(rs.classify(&path("x.a"), false), PathClass::Passthrough);
    assert_eq!(rs.classify(&path("x.b"), false), PathClass::Passthrough);
    assert_eq!(rs.classify(&path("x.c"), false), PathClass::Blocked);
    let lost = disk.load_with(true, ChildConfigs::Reject, None).ok().unwrap();
    assert_eq!(lost.classify(&path("x.b"), false), PathClass::Blocked);
}

#[test]
fn drops_compare_trimmed_lines_exactly() {
    let mut disk = Disk::new();
    disk.write(".gitignore", "  *.out  \n*.Log\nbuild/\n");
    disk.write(
        ".shadowconfig",
        "[[gitignore_drop]]\npatterns = [\"*.out\", \"*.log\", \"build\"]\n",
    );
    let exact = disk.rules(true);
    assert_eq!(exact.classify(&path("a.out"), false), PathClass::Passthrough);
    assert_eq!(exact.classify(&path("a.Log"), false), PathClass::Blocked);
    assert_eq!(exact.classify(&path("build"), true), PathClass::Blocked);
    let folded = disk.rules(false);
    assert_eq!(folded.classify(&path("a.log"), false), PathClass::Passthrough);
}

#[test]
fn an_unparsable_change_leaves_the_renames() {
    let mut disk = Disk::new();
    disk.write(".gitignore", "creds/\n");
    disk.write(
        ".shadowconfig",
        "folder_renames = [ { from = \"creds\", to = \"secrets\", at = \"x\" } ]\n",
    );
    let mut rs = disk.rules(true);
    disk.write(".shadowconfig", "= [");
    assert_eq!(disk.classify(&mut rs, "secrets", true), PathClass::Blocked);
    assert!(!rs.shadowconfig_changed(disk.stamp()));
}

#[test]
fn own_renames_are_no_news() {
    let mut disk = Disk::new();
    let mut rs = disk.rules(true);
    disk.rename_tracked(&mut rs, "a", "b");
    disk.writes += 1;
    let news = rs.check_shadowconfig_changes(disk.stamp(), &disk.content(".shadowconfig"));
    assert!(news.is_empty());
    disk.write(
        ".shadowconfig",
        "folder_renames = [ [\"a\", \"b\", \"1\"], [\"c\", \"d\", \"2\"], [\"c\", \"d\", \"3\"] ]\n",
    );
    let news = rs.check_shadowconfig_changes(disk.stamp(), &disk.content(".shadowconfig"));
    assert_eq!(news, vec![("c".to_string(), "d".to_string())]);
}

#[test]
fn a_restart_restores_the_original_names() {
    let mut disk = Disk::new();
    disk.write(".gitignore", "creds/\n");
    let mut rs = disk.rules(false);
    disk.rename_tracked(&mut rs, "Creds", "Secrets");
    disk.rename_tracked(&mut rs, "Secrets", "Vault");
    let again = disk.rules(false);
    assert_eq!(alias(&rs, "vault"), Some("creds".to_string()));
    assert_eq!(alias(&again, "vault"), Some("creds".to_string()));
    assert_eq!(rs.rename_aliases().len(), again.rename_aliases().len());
    assert_eq!(again.classify(&path("VAULT/key"), false), PathClass::Blocked);
}

#[test]
fn every_alias_that_leads_to_a_path_counts() {
    let mut disk = Disk::new();
    disk.write(".gitignore", "x/secret\ny/z/other\n");
    disk.write(
        ".shadowconfig",
        "folder_renames = [ [\"x\", \"a/b\", \"1\"], [\"y\", \"a\", \"2\"], [\"y/z\", \"a/b\", \"3\"], [\"x\", \"a/b/c\", \"4\"] ]\n",
    );
    let rs = disk.rules(true);
    assert_eq!(rs.classify(&path("a/b/c/secret"), false), PathClass::Blocked);
    assert_eq!(rs.classify(&path("a/b/other"), false), PathClass::Blocked);
    assert_eq!(rs.classify(&path("a/z/other"), false), PathClass::Blocked);
    assert_eq!(rs.classify(&path("a/b/fine"), false), PathClass::Passthrough);
}

#[test]
fn ancestors_run_up_to_the_root() {
    let dirs: Vec<Vec<u8>> =
        ancestors(&path("/a/b/c")).iter().map(|d| d.as_bytes().to_vec()).collect();
    assert_eq!(dirs, vec![b"/a/b".to_vec(), b"/a".to_vec(), b"/".to_vec()]);
    assert!(ancestors(&path("/")).is_empty());
}

const NESTED: &str = "folder_renames = [{ from = 'a', to = 'b', at = 't1' }, { from = 'b/c', to = 'b/d', at = 't2' }]\n";

#[test]
fn renames_below_renamed_directories_are_followed() {
    let mut disk = Disk::new();
    disk.write(".gitignore", "a/c/x.key\n");
    disk.write(".shadowconfig", NESTED);
    for case_sensitive in [true, false] {
        let rs = disk.rules(case_sensitive);
        assert_eq!(rs.classify(&path("b/d/x.key"), false), PathClass::Blocked);
        assert_eq!(rs.classify(&path("b/c/x.key"), false), PathClass::Blocked);
        assert_eq!(rs.classify(&path("a/c/x.key"), false), PathClass::Blocked);
        assert_eq!(rs.classify(&path("b/d/y.key"), false), PathClass::Passthrough);
        assert_eq!(rs.classify(&path("d/x.key"), false), PathClass::Passthrough);
    }
}

#[test]
fn renames_below_renamed_directories_are_followed_as_they_happen() {
    let mut disk = Disk::new();
    disk.write(".gitignore", "a/c/d/x.key\na/c/d/\n");
    disk.write("a/c/d/x.key", "secret");
    let mut rs = disk.rules(true);
    disk.rename_tracked(&mut rs, "a", "b");
    disk.rename_tracked(&mut rs, "b/c", "b/e");
    disk.rename_tracked(&mut rs, "b/e/d", "b/e/f");
    assert_eq!(disk.classify(&mut rs, "b/e/f/x.key", false), PathClass::Blocked);
    assert_eq!(disk.classify(&mut rs, "b/e/f", true), PathClass::Blocked);
    assert_eq!(disk.rules(true).classify(&path("b/e/f/x.key"), false), PathClass::Blocked);
}

#[test]
fn renames_in_a_circle_come_to_an_end() {
    let mut disk = Disk::new();
    disk.write(".gitignore", "q/a/b/x.key\n");
    let mut rs = disk.rules(true);
    for _ in 0..10 {
        disk.rename_tracked(&mut rs, "a", "t");
        disk.rename_tracked(&mut rs, "t", "a");
        disk.rename_tracked(&mut rs, "a/b", "a/t");
        disk.rename_tracked(&mut rs, "a/t", "a/b");
        disk.rename_tracked(&mut rs, "t/b", "a");
    }
    assert_eq!(disk.classify(&mut rs, "a/b/x.key", false), PathClass::Passthrough);
}

#[test]
fn a_pattern_with_a_backslash_survives_a_rename() {
    let mut disk = Disk::new();
    disk.write(".shadowconfig", "[ignore]\npatterns = ['\\#x']\n");
    disk.write("a/f", "");
    let mut rs = disk.rules(true);
    assert_eq!(rs.classify(&path("#x"), false), PathClass::Hidden);
    disk.rename_tracked(&mut rs, "a", "b");
    assert_eq!(disk.classify(&mut rs, "#x", false), PathClass::Hidden);
    let text = disk.read(".shadowconfig");
    let config = fuseshadow::config::parse_shadowconfig(&text).ok().unwrap();
    assert_eq!(config.ignore.patterns, vec!["\\#x".to_string()]);
    assert_eq!(config.folder_renames.len(), 1);
    assert_eq!(disk.rules(true).classify(&path("#x"), false), PathClass::Hidden);
}

#[test]
fn a_name_with_a_quote_can_be_renamed_again() {
    let mut disk = Disk::new();
    disk.write(".gitignore", "a/x.key\n");
    disk.write("a/x.key", "secret");
    let mut rs = disk.rules(true);
    disk.rename_tracked(&mut rs, "a", "say \"b\"");
    disk.rename_tracked(&mut rs, "say \"b\"", "c\nd");
    assert_eq!(disk.classify(&mut rs, "c\nd/x.key", false), PathClass::Blocked);
    let again = disk.rules(true);
    assert_eq!(again.classify(&path("c\nd/x.key"), false), PathClass::Blocked);
}

#[test]
fn only_gitignore_files_count_above_the_root() {
    let root = path(ROOT);
    let file = |name: &str, content: &str| FoundFile {
        dir: path("/outer"),
        name: name.as_bytes().to_vec(),
        content: Some(content.as_bytes().to_vec()),
    };
    let stamp = Disk::new().stamp();
    let load = |above: Vec<FoundFile>| {
        RuleSet::load(&root, &above, &vec![], stamp, true, ChildConfigs::Reject, &None).ok().unwrap()
    };
    let config = "[ignore]\npatterns = [\"hide\"]\n";
    let with = load(vec![file(".shadowconfig", config), file(".gitignore", "*.key\n"), file("notes", "notes\n")]);
    let without = load(vec![file(".gitignore", "*.key\n")]);
    for rel in ["hide", "x.key", "[ignore]", "notes", "patterns = [\"hide\"]"] {
        assert_eq!(with.classify(&path(rel), false), without.classify(&path(rel), false), "{rel}");
    }
    assert_eq!(with.classify(&path("hide"), false), PathClass::Passthrough);
    assert_eq!(with.classify(&path("x.key"), false), PathClass::Blocked);
}

#[test]
fn drops_reach_files_above_the_root() {
    let mut disk = Disk::new();
    disk.write_above("/outer", "*.a\n*.b\n");
    disk.write("sub/.gitignore", "*.c\n");
    disk.write(
        ".shadowconfig",
        "[[gitignore_drop]]\ngitignore = \"../.gitignore\"\npatterns = [\"*.a\"]\n[[gitignore_drop]]\ngitignore = \"x/../sub/.gitignore\"\npatterns = [\"*.c\"]\n",
    );
    let rs = disk.rules(true);
    assert_eq!(rs.classify(&path("x.a"), false), PathClass::Passthrough);
    assert_eq!(rs.classify(&path("x.b"), false), PathClass::Blocked);
    assert_eq!(rs.classify(&path("sub/x.c"), false), PathClass::Passthrough);
}

#[test]
fn blocked_stays_blocked_when_a_directory_is_renamed() {
    for case_sensitive in [true, false] {
        let mut disk = Disk::new();
        disk.write_above("/outer", "source/old/above.key\n");
        disk.write(".gitignore", "old/root.key\n");
        disk.write("old/.gitignore", "/top.key\ndeep/two.key\n");
        disk.write("old/deep/.gitignore", "*.pem\n!ok.pem\n");
        let mut rs = disk.rules(case_sensitive);
        let below = ["above.key", "root.key", "top.key", "deep/two.key", "deep/x.pem"];
        for s in below {
            let rel = format!("old/{s}");
            assert_eq!(rs.classify(&path(&rel), false), PathClass::Blocked, "{rel}");
        }
        assert_eq!(rs.classify(&path("old/deep/ok.pem"), false), PathClass::Passthrough);
        disk.rename_tracked(&mut rs, "old", "new");
        for s in below {
            let rel = format!("new/{s}");
            assert_eq!(disk.classify(&mut rs, &rel, false), PathClass::Blocked, "{rel}");
        }
        assert_eq!(disk.classify(&mut rs, "new/deep/ok.pem", false), PathClass::Passthrough);
    }
}

#[test]
fn following_a_rename_twice_changes_nothing() {
    let mut disk = Disk::new();
    disk.write("a/.gitignore", "*.key\n");
    let mut rs = disk.rules(true);
    disk.rename("a", "b");
    let found = disk.found("b");
    rs.refresh_child_matchers_for_external(&path("a"), &path("b"), &found);
    let classes = |rs: &RuleSet| -> Vec<PathClass> {
        ["b/x.key", "a/x.key", "b/.gitignore", "x.key"]
            .iter()
            .map(|rel| rs.classify(&path(rel), false))
            .collect()
    };
    let once = classes(&rs);
    rs.refresh_child_matchers_for_external(&path("a"), &path("b"), &found);
    assert_eq!(classes(&rs), once);
    assert_eq!(once[0], PathClass::Blocked);
    assert_eq!(once[1], PathClass::Passthrough);
}

#[test]
fn case_alone_makes_no_difference() {
    let mut disk = Disk::new();
    disk.write(".gitignore", "Build/\n*.KEY\n");
    disk.write(".shadowconfig", "[ignore]\npatterns = [\"Hide\"]\n");
    let rs = disk.rules(false);
    for rel in ["build/a", "x.key", "hide", ".shadowconfig", "sub/.gitignore", "plain"] {
        let upper = rel.to_uppercase();
        for is_dir in [true, false] {
            assert_eq!(rs.classify(&path(rel), is_dir), rs.classify(&path(&upper), is_dir), "{rel}");
        }
    }
    assert_eq!(rs.classify(&path("SUB/.GitIgnore"), false), PathClass::GitignoreFile);
}

#[test]
fn a_name_given_away_is_not_taken_for_its_next_owner() {
    let mut disk = Disk::new();
    disk.write(".gitignore", "A/x\n");
    disk.write(
        ".shadowconfig",
        "folder_renames = [{ from = 'B', to = 'C', at = 't1' }, { from = 'A', to = 'B', at = 't2' }]\n",
    );
    for case_sensitive in [true, false] {
        let rs = disk.rules(case_sensitive);
        assert_eq!(rs.rename_aliases().len(), 2);
        assert_eq!(rs.classify(&path("C/x"), false), PathClass::Passthrough);
        assert_eq!(rs.classify(&path("B/x"), false), PathClass::Blocked);
        assert_eq!(rs.classify(&path("A/x"), false), PathClass::Blocked);
    }
    disk.write(".gitignore", "B/y\n");
    let rs = disk.rules(true);
    assert_eq!(rs.classify(&path("C/y"), false), PathClass::Blocked);
}

#[test]
fn an_outer_rename_carries_inner_ones_along() {
    let mut disk = Disk::new();
    disk.write(".gitignore", "a/c/x.key\n");
    disk.write("a/c/x.key", "secret");
    let mut rs = disk.rules(true);
    disk.rename_tracked(&mut rs, "a", "b");
    disk.rename_tracked(&mut rs, "b/c", "b/d");
    disk.rename_tracked(&mut rs, "b", "z");
    assert_eq!(disk.classify(&mut rs, "z/d/x.key", false), PathClass::Blocked);
    disk.rename_tracked(&mut rs, "z/d", "top");
    assert_eq!(disk.classify(&mut rs, "top/x.key", false), PathClass::Blocked);
    assert_eq!(disk.rules(true).classify(&path("top/x.key"), false), PathClass::Blocked);
}

#[test]
fn a_nested_config_is_not_read_when_its_directory_is_renamed() {
    let mut disk = Disk::new();
    disk.write("a/.shadowconfig", "[ignore]\npatterns = [\"hide\"]\n");
    disk.write("a/.gitignore", "*.key\n");
    let renamed = |mut disk: Disk, children: ChildConfigs| {
        let mut rs = disk.load_with(true, children, None).ok().unwrap();
        disk.rename_tracked(&mut rs, "a", "b");
        let own = rs.classify(&path("b/hide"), false);
        assert_eq!(rs.classify(&path("b/x.key"), false), PathClass::Blocked);
        let found = disk.found("b");
        rs.refresh_child_matchers_for_external(&path("a"), &path("b"), &found);
        assert_eq!(rs.classify(&path("b/hide"), false), own);
        own
    };
    let copy = || {
        let mut d = Disk::new();
        d.files = disk.files.clone();
        d
    };
    assert_eq!(renamed(copy(), ChildConfigs::Skip), PathClass::Passthrough);
    assert_eq!(renamed(copy(), ChildConfigs::Compose), PathClass::Hidden);
    let mut late = Disk::new();
    late.write("a/.gitignore", "*.key\n");
    let mut rs = late.load_with(true, ChildConfigs::Reject, None).ok().unwrap();
    late.write("a/.shadowconfig", "[ignore]\npatterns = [\"hide\"]\n");
    late.rename_tracked(&mut rs, "a", "b");
    assert_eq!(rs.classify(&path("b/hide"), false), PathClass::Passthrough);
}

#[test]
fn names_that_are_no_text_are_matched_byte_by_byte() {
    let mut disk = Disk::new();
    disk.write(".gitignore", "?.secret\n");
    let raw = FsPath::from_bytes(b"sub/\xff.secret");
    assert_eq!(disk.rules(true).classify(&raw, false), PathClass::Blocked);
    assert_eq!(disk.rules(false).classify(&raw, false), PathClass::Passthrough);
    let two = FsPath::from_bytes(b"sub/\xff\xfe.secret");
    assert_eq!(disk.rules(true).classify(&two, false), PathClass::Passthrough);
}

#[test]
fn a_directory_whose_name_is_no_text_has_its_rules() {
    let root = path(ROOT);
    let file = FoundFile {
        dir: FsPath::from_bytes(b"/outer/source/\xff"),
        name: b".gitignore".to_vec(),
        content: Some(b"/x.key\n".to_vec()),
    };
    let stamp = Disk::new().stamp();
    let rs = RuleSet::load(&root, &vec![], &vec![file], stamp, true, ChildConfigs::Reject, &None)
        .ok()
        .unwrap();
    assert_eq!(rs.classify(&FsPath::from_bytes(b"\xff/x.key"), false), PathClass::Blocked);
    assert_eq!(rs.classify(&FsPath::from_bytes(b"\xfe/x.key"), false), PathClass::Passthrough);
}
