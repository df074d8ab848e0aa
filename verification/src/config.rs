//! The `.shadowconfig` file: what it says, how it is read and how it is written.

use crate::text::{characters, texts};
use crate::toml_tree::{
    field, get_field, get_texts, lookup, parse_toml, text_list, toml_document, Toml, TomlEntry,
    TomlTree,
};
use vstd::prelude::*;
use vstd::string::{StrSliceExecFns, StringExecFns};

verus! {

/// A directory rename, as it is recorded.
#[derive(Debug)]
pub struct FolderRename {
    pub from: String,
    pub to: String,
    pub at: String,
}

impl Clone for FolderRename {
    fn clone(&self) -> (copy: FolderRename)
        ensures
            copy@ == self@,
    {
        FolderRename { from: self.from.clone(), to: self.to.clone(), at: self.at.clone() }
    }
}

/// The model of a recorded rename.
#[verifier::ext_equal]
pub struct Rename {
    pub from: Seq<char>,
    pub to: Seq<char>,
    pub at: Seq<char>,
}

impl View for FolderRename {
    type V = Rename;

    open spec fn view(&self) -> Rename {
        Rename { from: self.from@, to: self.to@, at: self.at@ }
    }
}

/// Patterns to take out of one gitignore file; the one at the source root unless
/// another is named.
pub struct GitignoreDrop {
    pub gitignore: Option<String>,
    pub patterns: Vec<String>,
}

/// The model of patterns to take out.
#[verifier::ext_equal]
pub struct Drops {
    pub gitignore: Option<Seq<char>>,
    pub patterns: Seq<Seq<char>>,
}

impl View for GitignoreDrop {
    type V = Drops;

    open spec fn view(&self) -> Drops {
        Drops {
            gitignore: match self.gitignore {
                Some(g) => Some(g@),
                None => None,
            },
            patterns: texts(self.patterns@),
        }
    }
}

/// A section that holds patterns.
pub struct ShadowSection {
    pub patterns: Vec<String>,
}

/// The contents of a `.shadowconfig` file.
pub struct ShadowConfig {
    pub ignore: ShadowSection,
    pub writable: ShadowSection,
    pub folder_renames: Vec<FolderRename>,
    pub gitignore_drop: Vec<GitignoreDrop>,
}

/// The model of a `.shadowconfig` file.
#[verifier::ext_equal]
pub struct Config {
    pub ignore: Seq<Seq<char>>,
    pub writable: Seq<Seq<char>>,
    pub folder_renames: Seq<Rename>,
    pub gitignore_drop: Seq<Drops>,
}

/// The models of a list of recorded renames.
pub open spec fn renames(v: Seq<FolderRename>) -> Seq<Rename> {
    Seq::new(v.len(), |i: int| v[i]@)
}

/// The models of a list of patterns to take out.
pub open spec fn drop_list(v: Seq<GitignoreDrop>) -> Seq<Drops> {
    Seq::new(v.len(), |i: int| v[i]@)
}

impl View for ShadowConfig {
    type V = Config;

    open spec fn view(&self) -> Config {
        Config {
            ignore: texts(self.ignore.patterns@),
            writable: texts(self.writable.patterns@),
            folder_renames: renames(self.folder_renames@),
            gitignore_drop: drop_list(self.gitignore_drop@),
        }
    }
}

/// A `.shadowconfig` file that says nothing.
pub open spec fn empty_config() -> Config {
    Config {
        ignore: Seq::<Seq<char>>::empty(),
        writable: Seq::<Seq<char>>::empty(),
        folder_renames: Seq::<Rename>::empty(),
        gitignore_drop: Seq::<Drops>::empty(),
    }
}

impl ShadowConfig {
    /// A `.shadowconfig` file that says nothing.
    pub fn new() -> (c: ShadowConfig)
        ensures
            c@ == empty_config(),
    {
        let c = ShadowConfig {
            ignore: ShadowSection { patterns: Vec::new() },
            writable: ShadowSection { patterns: Vec::new() },
            folder_renames: Vec::new(),
            gitignore_drop: Vec::new(),
        };
        assert(c@ =~= empty_config());
        c
    }
}

/// Whether a TOML string holds a character as it stands.
pub open spec fn is_bare(c: char) -> bool {
    c != '"' && c != '\\' && (c == '\t' || (' ' <= c && c != '\x7f'))
}

/// A hexadecimal digit.
pub open spec fn hex_digit(n: int) -> Seq<char> {
    "0123456789abcdef"@.subrange(n, n + 1)
}

/// A character as a TOML string holds it: a quote and a backslash behind a backslash, a
/// control character by its code.
pub open spec fn escape(c: char) -> Seq<char> {
    if is_bare(c) {
        seq![c]
    } else if c == '"' {
        "\\\""@
    } else if c == '\\' {
        "\\\\"@
    } else {
        "\\u00"@ + hex_digit(c as int / 16) + hex_digit(c as int % 16)
    }
}

/// A text as a TOML string holds it.
pub open spec fn escaped(t: Seq<char>) -> Seq<char>
    decreases t.len(),
{
    if t.len() == 0 {
        Seq::<char>::empty()
    } else {
        escaped(t.drop_last()) + escape(t.last())
    }
}

/// A text in quotes, with escapes where it needs them.
pub open spec fn quoted(t: Seq<char>) -> Seq<char> {
    "\""@ + escaped(t) + "\""@
}

/// Texts in quotes, with commas between them.
pub open spec fn quoted_list(ts: Seq<Seq<char>>) -> Seq<char>
    decreases ts.len(),
{
    if ts.len() == 0 {
        Seq::<char>::empty()
    } else if ts.len() == 1 {
        quoted(ts[0])
    } else {
        quoted_list(ts.drop_last()) + ", "@ + quoted(ts.last())
    }
}

/// The line for a list of patterns.
pub open spec fn patterns_line(ts: Seq<Seq<char>>) -> Seq<char> {
    "patterns = ["@ + quoted_list(ts) + "]\n"@
}

/// The line for a recorded rename.
pub open spec fn rename_line(r: Rename) -> Seq<char> {
    "  { from = "@ + quoted(r.from) + ", to = "@ + quoted(r.to) + ", at = "@ + quoted(r.at)
        + " },\n"@
}

/// The lines for a list of recorded renames.
pub open spec fn rename_lines(rs: Seq<Rename>) -> Seq<char>
    decreases rs.len(),
{
    if rs.len() == 0 {
        Seq::<char>::empty()
    } else {
        rename_lines(rs.drop_last()) + rename_line(rs.last())
    }
}

/// The block for recorded renames; there is none without a rename.
pub open spec fn renames_block(rs: Seq<Rename>) -> Seq<char> {
    if rs.len() == 0 {
        Seq::<char>::empty()
    } else {
        "# fuseshadow: directory renames detected during agent session.\n"@
            + "# Review and update your .gitignore files, then remove entries below.\n"@
            + "folder_renames = [\n"@ + rename_lines(rs) + "]\n"@
    }
}

/// `block` behind `out`, with an empty line between the two where both are there.
pub open spec fn with_block(out: Seq<char>, block: Seq<char>) -> Seq<char> {
    if block.len() == 0 {
        out
    } else if out.len() == 0 {
        block
    } else {
        out + "\n"@ + block
    }
}

/// The block for a section of patterns; there is none without a pattern.
pub open spec fn section_block(header: Seq<char>, ts: Seq<Seq<char>>) -> Seq<char> {
    if ts.len() == 0 {
        Seq::<char>::empty()
    } else {
        header + patterns_line(ts)
    }
}

/// The block for patterns to take out of one gitignore file.
pub open spec fn drop_block(d: Drops) -> Seq<char> {
    match d.gitignore {
        Some(g) => "[[gitignore_drop]]\n"@ + "gitignore = "@ + quoted(g) + "\n"@ + patterns_line(
            d.patterns,
        ),
        None => "[[gitignore_drop]]\n"@ + patterns_line(d.patterns),
    }
}

/// The blocks for patterns to take out, behind `out`.
pub open spec fn with_drops(out: Seq<char>, ds: Seq<Drops>) -> Seq<char>
    decreases ds.len(),
{
    if ds.len() == 0 {
        out
    } else {
        with_block(with_drops(out, ds.drop_last()), drop_block(ds.last()))
    }
}

/// The text of a `.shadowconfig` file.
pub open spec fn shadowconfig_text(c: Config) -> Seq<char> {
    let renamed = renames_block(c.folder_renames);
    let ignored = with_block(renamed, section_block("[ignore]\n"@, c.ignore));
    let written = with_block(ignored, section_block("[writable]\n"@, c.writable));
    with_drops(written, c.gitignore_drop)
}

/// Appends a character that does not stand for itself.
fn push_escape(out: &mut String, c: char)
    requires
        !is_bare(c),
    ensures
        final(out)@ == old(out)@ + escape(c),
{
    if c == '"' {
        out.append("\\\"");
    } else if c == '\\' {
        out.append("\\\\");
    } else {
        proof {
            reveal_strlit("0123456789abcdef");
        }
        let digits = "0123456789abcdef";
        let code = c as u32;
        let high = (code / 16) as usize;
        let low = (code % 16) as usize;
        out.append("\\u00");
        out.append(digits.substring_char(high, high + 1));
        out.append(digits.substring_char(low, low + 1));
        assert(out@ =~= old(out)@ + escape(c));
    }
}

/// Characters that stand for themselves are held as they are.
proof fn lemma_escaped_run(t: Seq<char>, from: int, to: int)
    requires
        0 <= from <= to <= t.len(),
        forall|j: int| from <= j < to ==> is_bare(#[trigger] t[j]),
    ensures
        escaped(t.take(to)) == escaped(t.take(from)) + t.subrange(from, to),
    decreases to - from,
{
    if from < to {
        lemma_escaped_run(t, from, to - 1);
        assert(t.take(to).drop_last() =~= t.take(to - 1));
        assert(is_bare(t[to - 1]));
        assert(t.subrange(from, to) =~= t.subrange(from, to - 1) + seq![t[to - 1]]);
        assert(escaped(t.take(to)) =~= escaped(t.take(from)) + t.subrange(from, to));
    } else {
        assert(t.subrange(from, to) =~= Seq::<char>::empty());
        assert(escaped(t.take(to)) =~= escaped(t.take(from)) + t.subrange(from, to));
    }
}

/// Appends a text with escapes where it needs them.
fn push_escaped(out: &mut String, t: &str)
    ensures
        final(out)@ == old(out)@ + escaped(t@),
{
    let cs = characters(t);
    let ghost start = out@;
    let mut from: usize = 0;
    let mut i: usize = 0;
    assert(out@ =~= start + escaped(t@.take(0)));
    while i < cs.len()
        invariant
            from <= i <= cs.len(),
            cs@ == t@,
            out@ == start + escaped(t@.take(from as int)),
            forall|j: int| from <= j < i ==> is_bare(#[trigger] t@[j]),
        decreases cs.len() - i,
    {
        let c = cs[i];
        if c == '"' || c == '\\' || !(c == '\t' || (' ' <= c && c != '\x7f')) {
            out.append(t.substring_char(from, i));
            push_escape(out, c);
            proof {
                lemma_escaped_run(t@, from as int, i as int);
                assert(t@.take(i + 1).drop_last() =~= t@.take(i as int));
                assert(out@ =~= start + escaped(t@.take(i + 1)));
            }
            from = i + 1;
        }
        i += 1;
    }
    out.append(t.substring_char(from, cs.len()));
    proof {
        lemma_escaped_run(t@, from as int, t@.len() as int);
        assert(t@.take(t@.len() as int) =~= t@);
        assert(out@ =~= start + escaped(t@));
    }
}

/// Appends a text in quotes.
fn push_quoted(out: &mut String, t: &str)
    ensures
        final(out)@ == old(out)@ + quoted(t@),
{
    out.append("\"");
    push_escaped(out, t);
    out.append("\"");
    assert(out@ =~= old(out)@ + quoted(t@));
}

/// Appends the line for a list of patterns.
fn push_patterns(out: &mut String, ts: &Vec<String>)
    ensures
        final(out)@ == old(out)@ + patterns_line(texts(ts@)),
{
    out.append("patterns = [");
    let ghost all = texts(ts@);
    let ghost start = out@;
    let mut i: usize = 0;
    assert(out@ =~= start + quoted_list(all.take(0)));
    while i < ts.len()
        invariant
            i <= ts.len(),
            all == texts(ts@),
            out@ == start + quoted_list(all.take(i as int)),
        decreases ts.len() - i,
    {
        let ghost part = all.take(i + 1);
        assert(part.drop_last() =~= all.take(i as int));
        if i > 0 {
            out.append(", ");
        }
        push_quoted(out, &ts[i]);
        assert(out@ =~= start + quoted_list(part));
        i += 1;
    }
    assert(all.take(all.len() as int) =~= all);
    out.append("]\n");
    assert(out@ =~= old(out)@ + patterns_line(all));
}

/// Appends the block for a section of patterns, where there are any.
fn push_section(out: &mut String, header: &str, ts: &Vec<String>)
    requires
        header@.len() > 0,
    ensures
        final(out)@ == with_block(old(out)@, section_block(header@, texts(ts@))),
{
    if ts.len() == 0 {
        return ;
    }
    if !out.as_str().is_empty() {
        out.append("\n");
    }
    out.append(header);
    push_patterns(out, ts);
    assert(out@ =~= with_block(old(out)@, section_block(header@, texts(ts@))));
}

/// Appends the block for recorded renames, where there are any.
fn push_renames(out: &mut String, rs: &Vec<FolderRename>)
    requires
        old(out)@.len() == 0,
    ensures
        final(out)@ == renames_block(renames(rs@)),
{
    if rs.len() == 0 {
        assert(out@ =~= renames_block(renames(rs@)));
        return ;
    }
    out.append("# fuseshadow: directory renames detected during agent session.\n");
    out.append("# Review and update your .gitignore files, then remove entries below.\n");
    out.append("folder_renames = [\n");
    let ghost start = out@;
    let ghost all = renames(rs@);
    let mut i: usize = 0;
    assert(out@ =~= start + rename_lines(all.take(0)));
    while i < rs.len()
        invariant
            i <= rs.len(),
            all == renames(rs@),
            out@ == start + rename_lines(all.take(i as int)),
        decreases rs.len() - i,
    {
        let ghost before = out@;
        assert(all.take(i + 1).drop_last() =~= all.take(i as int));
        out.append("  { from = ");
        push_quoted(out, &rs[i].from);
        out.append(", to = ");
        push_quoted(out, &rs[i].to);
        out.append(", at = ");
        push_quoted(out, &rs[i].at);
        out.append(" },\n");
        assert(out@ =~= before + rename_line(all[i as int]));
        assert(out@ =~= start + rename_lines(all.take(i + 1)));
        i += 1;
    }
    assert(all.take(all.len() as int) =~= all);
    out.append("]\n");
    assert(out@ =~= renames_block(all));
}

/// Appends the block for patterns to take out of one gitignore file.
fn push_drop(out: &mut String, d: &GitignoreDrop)
    ensures
        final(out)@ == with_block(old(out)@, drop_block(d@)),
{
    proof {
        reveal_strlit("[[gitignore_drop]]\n");
    }
    if !out.as_str().is_empty() {
        out.append("\n");
    }
    out.append("[[gitignore_drop]]\n");
    match &d.gitignore {
        Some(g) => {
            out.append("gitignore = ");
            push_quoted(out, g);
            out.append("\n");
        },
        None => {},
    }
    push_patterns(out, &d.patterns);
    assert(out@ =~= with_block(old(out)@, drop_block(d@)));
}

/// The text of a `.shadowconfig` file.
pub fn serialize_shadowconfig(config: &ShadowConfig) -> (out: String)
    ensures
        out@ == shadowconfig_text(config@),
{
    let mut out = String::new();
    proof {
        reveal_strlit("");
        reveal_strlit("[ignore]\n");
        reveal_strlit("[writable]\n");
    }
    push_renames(&mut out, &config.folder_renames);
    push_section(&mut out, "[ignore]\n", &config.ignore.patterns);
    push_section(&mut out, "[writable]\n", &config.writable.patterns);
    let ghost start = out@;
    let ghost all = drop_list(config.gitignore_drop@);
    let mut i: usize = 0;
    while i < config.gitignore_drop.len()
        invariant
            i <= config.gitignore_drop.len(),
            all == drop_list(config.gitignore_drop@),
            out@ == with_drops(start, all.take(i as int)),
        decreases config.gitignore_drop.len() - i,
    {
        assert(all.take(i + 1).drop_last() =~= all.take(i as int));
        push_drop(&mut out, &config.gitignore_drop[i]);
        i += 1;
    }
    assert(all.take(all.len() as int) =~= all);
    out
}

/// A list of texts as a TOML value.
pub open spec fn texts_tree(ts: Seq<Seq<char>>) -> TomlTree {
    TomlTree::List(ts.map_values(|t: Seq<char>| TomlTree::Text(t)))
}

/// A recorded rename as a TOML value.
pub open spec fn rename_tree(r: Rename) -> TomlTree {
    TomlTree::Table(
        seq![
            TomlEntry { key: "at"@, value: TomlTree::Text(r.at) },
            TomlEntry { key: "from"@, value: TomlTree::Text(r.from) },
            TomlEntry { key: "to"@, value: TomlTree::Text(r.to) },
        ],
    )
}

/// Patterns to take out as a TOML value.
pub open spec fn drop_tree(d: Drops) -> TomlTree {
    match d.gitignore {
        Some(g) => TomlTree::Table(
            seq![
                TomlEntry { key: "gitignore"@, value: TomlTree::Text(g) },
                TomlEntry { key: "patterns"@, value: texts_tree(d.patterns) },
            ],
        ),
        None => TomlTree::Table(seq![TomlEntry { key: "patterns"@, value: texts_tree(d.patterns) }]),
    }
}

/// An entry of a table, where there is something to say.
pub open spec fn entry(there: bool, key: Seq<char>, t: TomlTree) -> Seq<TomlEntry> {
    if there {
        seq![TomlEntry { key, value: t }]
    } else {
        Seq::<TomlEntry>::empty()
    }
}

/// A section of patterns as a TOML value.
pub open spec fn section_tree(ts: Seq<Seq<char>>) -> TomlTree {
    TomlTree::Table(seq![TomlEntry { key: "patterns"@, value: texts_tree(ts) }])
}

/// A configuration as a TOML document.
pub open spec fn config_tree(c: Config) -> TomlTree {
    TomlTree::Table(
        entry(
            c.folder_renames.len() > 0,
            "folder_renames"@,
            TomlTree::List(c.folder_renames.map_values(|r: Rename| rename_tree(r))),
        ) + entry(
            c.gitignore_drop.len() > 0,
            "gitignore_drop"@,
            TomlTree::List(c.gitignore_drop.map_values(|d: Drops| drop_tree(d))),
        ) + entry(c.ignore.len() > 0, "ignore"@, section_tree(c.ignore)) + entry(
            c.writable.len() > 0,
            "writable"@,
            section_tree(c.writable),
        ),
    )
}

/// The text in a field that has to be there.
pub open spec fn text_field(t: TomlTree, key: Seq<char>, place: int) -> Option<Seq<char>> {
    match field(t, key, place) {
        Some(Some(TomlTree::Text(s))) => Some(s),
        _ => None,
    }
}

/// The patterns of a section.
pub open spec fn section_of(t: TomlTree) -> Option<Seq<Seq<char>>> {
    match field(t, "patterns"@, 0) {
        Some(Some(v)) => text_list(v),
        Some(None) => Some(Seq::<Seq<char>>::empty()),
        None => None,
    }
}

/// A recorded rename.
pub open spec fn rename_of(t: TomlTree) -> Option<Rename> {
    match (text_field(t, "from"@, 0), text_field(t, "to"@, 1), text_field(t, "at"@, 2)) {
        (Some(from), Some(to), Some(at)) => Some(Rename { from, to, at }),
        _ => None,
    }
}

/// Recorded renames.
pub open spec fn renames_of(ts: Seq<TomlTree>) -> Option<Seq<Rename>>
    decreases ts.len(),
{
    if ts.len() == 0 {
        Some(Seq::<Rename>::empty())
    } else {
        match (renames_of(ts.drop_last()), rename_of(ts.last())) {
            (Some(rs), Some(r)) => Some(rs.push(r)),
            _ => None,
        }
    }
}

/// Patterns to take out; the patterns have to be there.
pub open spec fn drop_of(t: TomlTree) -> Option<Drops> {
    let patterns = match field(t, "patterns"@, 1) {
        Some(Some(v)) => text_list(v),
        _ => None,
    };
    match (field(t, "gitignore"@, 0), patterns) {
        (Some(None), Some(ps)) => Some(Drops { gitignore: None, patterns: ps }),
        (Some(Some(TomlTree::Text(g))), Some(ps)) => Some(
            Drops { gitignore: Some(g), patterns: ps },
        ),
        _ => None,
    }
}

/// Lists of patterns to take out.
pub open spec fn drops_of(ts: Seq<TomlTree>) -> Option<Seq<Drops>>
    decreases ts.len(),
{
    if ts.len() == 0 {
        Some(Seq::<Drops>::empty())
    } else {
        match (drops_of(ts.drop_last()), drop_of(ts.last())) {
            (Some(ds), Some(d)) => Some(ds.push(d)),
            _ => None,
        }
    }
}

/// A section that need not be there.
pub open spec fn section_field(t: TomlTree, key: Seq<char>, place: int) -> Option<Seq<Seq<char>>> {
    match field(t, key, place) {
        Some(Some(v)) => section_of(v),
        Some(None) => Some(Seq::<Seq<char>>::empty()),
        None => None,
    }
}

/// A list that need not be there.
pub open spec fn list_field(t: TomlTree, key: Seq<char>, place: int) -> Option<Seq<TomlTree>> {
    match field(t, key, place) {
        Some(Some(TomlTree::List(vs))) => Some(vs),
        Some(None) => Some(Seq::<TomlTree>::empty()),
        _ => None,
    }
}

/// The configuration that a TOML document holds, where it has the right shape.
pub open spec fn config_of(t: TomlTree) -> Option<Config> {
    let renamed = match list_field(t, "folder_renames"@, 2) {
        Some(vs) => renames_of(vs),
        None => None,
    };
    let dropped = match list_field(t, "gitignore_drop"@, 3) {
        Some(vs) => drops_of(vs),
        None => None,
    };
    match (section_field(t, "ignore"@, 0), section_field(t, "writable"@, 1), renamed, dropped) {
        (Some(ignore), Some(writable), Some(folder_renames), Some(gitignore_drop)) => Some(
            Config { ignore, writable, folder_renames, gitignore_drop },
        ),
        _ => None,
    }
}

/// The configuration that a text holds, where it is one.
pub open spec fn shadowconfig_of(text: Seq<char>) -> Option<Config> {
    match toml_document(text) {
        Some(t) => config_of(t),
        None => None,
    }
}

/// Why a text that holds no configuration does not.
pub open spec fn config_fault(text: Seq<char>) -> ConfigError {
    if toml_document(text) is None {
        ConfigError::Syntax
    } else {
        ConfigError::Shape
    }
}

/// Why a text is no `.shadowconfig` file.
#[derive(Debug, Clone, Copy, PartialEq, Eq, Structural)]
pub enum ConfigError {
    /// It is no TOML document.
    Syntax,
    /// A field has the wrong type, or one that has to be there is missing.
    Shape,
}

/// The text in a field that has to be there.
fn read_text(t: &Toml, key: &str, place: usize) -> (out: Option<String>)
    ensures
        match out {
            Some(s) => text_field(t@, key@, place as int) == Some(s@),
            None => text_field(t@, key@, place as int) is None,
        },
{
    match get_field(t, key, place) {
        Some(Some(v)) => match v {
            Toml::Text(s) => Some(s.clone()),
            _ => None,
        },
        _ => None,
    }
}

/// The patterns of a section that need not be there.
fn read_section(t: &Toml, key: &str, place: usize) -> (out: Option<Vec<String>>)
    ensures
        match out {
            Some(v) => section_field(t@, key@, place as int) == Some(texts(v@)),
            None => section_field(t@, key@, place as int) is None,
        },
{
    let none: Vec<String> = Vec::new();
    assert(texts(none@) =~= Seq::<Seq<char>>::empty());
    match get_field(t, key, place) {
        Some(Some(section)) => match get_field(section, "patterns", 0) {
            Some(Some(v)) => get_texts(v),
            Some(None) => Some(none),
            None => None,
        },
        Some(None) => Some(none),
        None => None,
    }
}

/// A recorded rename.
fn read_rename(t: &Toml) -> (out: Option<FolderRename>)
    ensures
        match out {
            Some(r) => rename_of(t@) == Some(r@),
            None => rename_of(t@) is None,
        },
{
    match (read_text(t, "from", 0), read_text(t, "to", 1), read_text(t, "at", 2)) {
        (Some(from), Some(to), Some(at)) => Some(FolderRename { from, to, at }),
        _ => None,
    }
}

/// Recorded renames, which need not be there.
fn read_renames(t: &Toml) -> (out: Option<Vec<FolderRename>>)
    ensures
        match out {
            Some(v) => list_field(t@, "folder_renames"@, 2) matches Some(vs) && renames_of(vs)
                == Some(renames(v@)),
            None => list_field(t@, "folder_renames"@, 2) matches Some(vs) ==> renames_of(
                vs,
            ) is None,
        },
{
    let mut out: Vec<FolderRename> = Vec::new();
    assert(renames(out@) =~= Seq::<Rename>::empty());
    let list = match get_field(t, "folder_renames", 2) {
        Some(Some(v)) => match v {
            Toml::List(vs) => vs,
            _ => {
                return None;
            },
        },
        Some(None) => {
            return Some(out);
        },
        None => {
            return None;
        },
    };
    let ghost all = list_field(t@, "folder_renames"@, 2)->0;
    let mut i: usize = 0;
    assert(all.take(0) =~= Seq::<TomlTree>::empty());
    while i < list.len()
        invariant
            i <= list.len(),
            list_field(t@, "folder_renames"@, 2) == Some(all),
            all.len() == list.len(),
            forall|j: int| 0 <= j < list.len() ==> #[trigger] all[j] == list[j]@,
            renames_of(all.take(i as int)) == Some(renames(out@)),
        decreases list.len() - i,
    {
        assert(all.take(i + 1).drop_last() =~= all.take(i as int));
        assert(all.take(i + 1).last() == list[i as int]@);
        match read_rename(&list[i]) {
            Some(r) => {
                let ghost was = renames(out@);
                out.push(r);
                assert(renames(out@) =~= was.push(r@));
            },
            None => {
                proof {
                    lemma_renames_bad(all, i + 1);
                }
                return None;
            },
        }
        i += 1;
    }
    assert(all.take(all.len() as int) =~= all);
    Some(out)
}

proof fn lemma_renames_bad(ts: Seq<TomlTree>, i: int)
    requires
        0 <= i <= ts.len(),
        renames_of(ts.take(i)) is None,
    ensures
        renames_of(ts) is None,
    decreases ts.len(),
{
    if i < ts.len() {
        assert(ts.drop_last().take(i) =~= ts.take(i));
        lemma_renames_bad(ts.drop_last(), i);
    } else {
        assert(ts.take(i) =~= ts);
    }
}

/// Patterns to take out.
fn read_drop(t: &Toml) -> (out: Option<GitignoreDrop>)
    ensures
        match out {
            Some(d) => drop_of(t@) == Some(d@),
            None => drop_of(t@) is None,
        },
{
    let gitignore = match get_field(t, "gitignore", 0) {
        Some(Some(v)) => match v {
            Toml::Text(s) => Some(s.clone()),
            _ => {
                return None;
            },
        },
        Some(None) => None,
        None => {
            return None;
        },
    };
    match get_field(t, "patterns", 1) {
        Some(Some(v)) => match get_texts(v) {
            Some(patterns) => Some(GitignoreDrop { gitignore, patterns }),
            None => None,
        },
        _ => None,
    }
}

/// Lists of patterns to take out, which need not be there.
fn read_drops(t: &Toml) -> (out: Option<Vec<GitignoreDrop>>)
    ensures
        match out {
            Some(v) => list_field(t@, "gitignore_drop"@, 3) matches Some(vs) && drops_of(vs)
                == Some(drop_list(v@)),
            None => list_field(t@, "gitignore_drop"@, 3) matches Some(vs) ==> drops_of(
                vs,
            ) is None,
        },
{
    let mut out: Vec<GitignoreDrop> = Vec::new();
    assert(drop_list(out@) =~= Seq::<Drops>::empty());
    let list = match get_field(t, "gitignore_drop", 3) {
        Some(Some(v)) => match v {
            Toml::List(vs) => vs,
            _ => {
                return None;
            },
        },
        Some(None) => {
            return Some(out);
        },
        None => {
            return None;
        },
    };
    let ghost all = list_field(t@, "gitignore_drop"@, 3)->0;
    let mut i: usize = 0;
    assert(all.take(0) =~= Seq::<TomlTree>::empty());
    while i < list.len()
        invariant
            i <= list.len(),
            list_field(t@, "gitignore_drop"@, 3) == Some(all),
            all.len() == list.len(),
            forall|j: int| 0 <= j < list.len() ==> #[trigger] all[j] == list[j]@,
            drops_of(all.take(i as int)) == Some(drop_list(out@)),
        decreases list.len() - i,
    {
        assert(all.take(i + 1).drop_last() =~= all.take(i as int));
        assert(all.take(i + 1).last() == list[i as int]@);
        match read_drop(&list[i]) {
            Some(d) => {
                let ghost was = drop_list(out@);
                out.push(d);
                assert(drop_list(out@) =~= was.push(d@));
            },
            None => {
                proof {
                    lemma_drops_bad(all, i + 1);
                }
                return None;
            },
        }
        i += 1;
    }
    assert(all.take(all.len() as int) =~= all);
    Some(out)
}

proof fn lemma_drops_bad(ts: Seq<TomlTree>, i: int)
    requires
        0 <= i <= ts.len(),
        drops_of(ts.take(i)) is None,
    ensures
        drops_of(ts) is None,
    decreases ts.len(),
{
    if i < ts.len() {
        assert(ts.drop_last().take(i) =~= ts.take(i));
        lemma_drops_bad(ts.drop_last(), i);
    } else {
        assert(ts.take(i) =~= ts);
    }
}

/// The configuration that a TOML document holds, where it has the right shape.
pub fn read_config(t: &Toml) -> (out: Option<ShadowConfig>)
    ensures
        match out {
            Some(c) => config_of(t@) == Some(c@),
            None => config_of(t@) is None,
        },
{
    match (
        read_section(t, "ignore", 0),
        read_section(t, "writable", 1),
        read_renames(t),
        read_drops(t),
    ) {
        (Some(ignore), Some(writable), Some(folder_renames), Some(gitignore_drop)) => Some(
            ShadowConfig {
                ignore: ShadowSection { patterns: ignore },
                writable: ShadowSection { patterns: writable },
                folder_renames,
                gitignore_drop,
            },
        ),
        _ => None,
    }
}

proof fn lemma_keys()
    ensures
        "at"@ != "from"@,
        "at"@ != "to"@,
        "from"@ != "to"@,
        "gitignore"@ != "patterns"@,
        "folder_renames"@ != "gitignore_drop"@,
        "folder_renames"@ != "ignore"@,
        "folder_renames"@ != "writable"@,
        "gitignore_drop"@ != "ignore"@,
        "gitignore_drop"@ != "writable"@,
        "ignore"@ != "writable"@,
{
    reveal_strlit("at");
    reveal_strlit("from");
    reveal_strlit("to");
    reveal_strlit("gitignore");
    reveal_strlit("patterns");
    reveal_strlit("folder_renames");
    reveal_strlit("gitignore_drop");
    reveal_strlit("ignore");
    reveal_strlit("writable");
    assert("at"@[0] == 'a' && "to"@[0] == 't');
    assert("gitignore"@.len() == 9 && "patterns"@.len() == 8);
    assert("ignore"@.len() == 6 && "writable"@.len() == 8);
    assert("folder_renames"@[0] == 'f' && "gitignore_drop"@[0] == 'g');
}

proof fn lemma_texts_tree(ts: Seq<Seq<char>>)
    ensures
        text_list(texts_tree(ts)) == Some(ts),
{
    let vs = texts_tree(ts)->List_0;
    assert forall|i: int| 0 <= i < vs.len() implies #[trigger] vs[i] is Text by {}
    assert(Seq::new(vs.len(), |i: int| vs[i]->Text_0) =~= ts);
}

proof fn lemma_section_tree(ts: Seq<Seq<char>>)
    ensures
        section_of(section_tree(ts)) == Some(ts),
{
    lemma_texts_tree(ts);
    assert(section_tree(ts)->Table_0.last().key == "patterns"@);
}

proof fn lemma_rename_tree(r: Rename)
    ensures
        rename_of(rename_tree(r)) == Some(r),
{
    lemma_keys();
    reveal_with_fuel(lookup, 4);
    let es = rename_tree(r)->Table_0;
    assert(es.last().key == "to"@);
    assert(es.drop_last().last().key == "from"@);
    assert(es.drop_last().drop_last().last().key == "at"@);
}

proof fn lemma_drop_tree(d: Drops)
    ensures
        drop_of(drop_tree(d)) == Some(d),
{
    lemma_keys();
    lemma_texts_tree(d.patterns);
    reveal_with_fuel(lookup, 3);
    let es = drop_tree(d)->Table_0;
    assert(es.last().key == "patterns"@);
    if d.gitignore is Some {
        assert(es.drop_last().last().key == "gitignore"@);
    } else {
        assert(es.drop_last() =~= Seq::<TomlEntry>::empty());
    }
}

proof fn lemma_renames_tree(rs: Seq<Rename>)
    ensures
        renames_of(rs.map_values(|r: Rename| rename_tree(r))) == Some(rs),
    decreases rs.len(),
{
    let f = |r: Rename| rename_tree(r);
    if rs.len() == 0 {
        assert(rs =~= Seq::<Rename>::empty());
    } else {
        lemma_renames_tree(rs.drop_last());
        lemma_rename_tree(rs.last());
        assert(rs.map_values(f).drop_last() =~= rs.drop_last().map_values(f));
        assert(rs =~= rs.drop_last().push(rs.last()));
    }
}

proof fn lemma_drops_tree(ds: Seq<Drops>)
    ensures
        drops_of(ds.map_values(|d: Drops| drop_tree(d))) == Some(ds),
    decreases ds.len(),
{
    let f = |d: Drops| drop_tree(d);
    if ds.len() == 0 {
        assert(ds =~= Seq::<Drops>::empty());
    } else {
        lemma_drops_tree(ds.drop_last());
        lemma_drop_tree(ds.last());
        assert(ds.map_values(f).drop_last() =~= ds.drop_last().map_values(f));
        assert(ds =~= ds.drop_last().push(ds.last()));
    }
}

proof fn lemma_lookup_add(a: Seq<TomlEntry>, b: Seq<TomlEntry>, key: Seq<char>)
    ensures
        lookup(a + b, key) == (if lookup(b, key) is Some {
            lookup(b, key)
        } else {
            lookup(a, key)
        }),
    decreases b.len(),
{
    if b.len() == 0 {
        assert(a + b =~= a);
    } else {
        lemma_lookup_add(a, b.drop_last(), key);
        assert((a + b).drop_last() =~= a + b.drop_last());
        assert((a + b).last() == b.last());
    }
}

proof fn lemma_lookup_entry(there: bool, key: Seq<char>, t: TomlTree, wanted: Seq<char>)
    ensures
        lookup(entry(there, key, t), wanted) == (if there && key == wanted {
            Some(t)
        } else {
            None
        }),
{
    reveal_with_fuel(lookup, 2);
    if there {
        assert(entry(there, key, t).last().key == key);
        assert(entry(there, key, t).drop_last() =~= Seq::<TomlEntry>::empty());
    }
}

/// A configuration survives being put into a TOML document and read out of it.
pub proof fn law_config_tree(c: Config)
    ensures
        config_of(config_tree(c)) == Some(c),
{
    lemma_keys();
    let r = TomlTree::List(c.folder_renames.map_values(|r: Rename| rename_tree(r)));
    let d = TomlTree::List(c.gitignore_drop.map_values(|d: Drops| drop_tree(d)));
    let e1 = entry(c.folder_renames.len() > 0, "folder_renames"@, r);
    let e2 = entry(c.gitignore_drop.len() > 0, "gitignore_drop"@, d);
    let e3 = entry(c.ignore.len() > 0, "ignore"@, section_tree(c.ignore));
    let e4 = entry(c.writable.len() > 0, "writable"@, section_tree(c.writable));
    assert forall|key: Seq<char>| #[trigger]
        lookup(e1 + e2 + e3 + e4, key) == (if c.writable.len() > 0 && key == "writable"@ {
            Some(section_tree(c.writable))
        } else if c.ignore.len() > 0 && key == "ignore"@ {
            Some(section_tree(c.ignore))
        } else if c.gitignore_drop.len() > 0 && key == "gitignore_drop"@ {
            Some(d)
        } else if c.folder_renames.len() > 0 && key == "folder_renames"@ {
            Some(r)
        } else {
            None
        }) by {
        lemma_lookup_add(e1 + e2 + e3, e4, key);
        lemma_lookup_add(e1 + e2, e3, key);
        lemma_lookup_add(e1, e2, key);
        lemma_lookup_entry(c.folder_renames.len() > 0, "folder_renames"@, r, key);
        lemma_lookup_entry(c.gitignore_drop.len() > 0, "gitignore_drop"@, d, key);
        lemma_lookup_entry(c.ignore.len() > 0, "ignore"@, section_tree(c.ignore), key);
        lemma_lookup_entry(c.writable.len() > 0, "writable"@, section_tree(c.writable), key);
    }
    lemma_section_tree(c.ignore);
    lemma_section_tree(c.writable);
    lemma_renames_tree(c.folder_renames);
    lemma_drops_tree(c.gitignore_drop);
    let t = config_tree(c);
    assert(section_field(t, "ignore"@, 0)->0 =~= c.ignore);
    assert(section_field(t, "writable"@, 1)->0 =~= c.writable);
    assert(renames_of(list_field(t, "folder_renames"@, 2)->0)->0 =~= c.folder_renames);
    assert(drops_of(list_field(t, "gitignore_drop"@, 3)->0)->0 =~= c.gitignore_drop);
}

/// Reads a `.shadowconfig` file. What was written for a configuration is read back as
/// that configuration.
pub fn parse_shadowconfig(text: &str) -> (out: Result<ShadowConfig, ConfigError>)
    ensures
        match out {
            Ok(c) => shadowconfig_of(text@) == Some(c@),
            Err(e) => shadowconfig_of(text@) is None && e == config_fault(text@),
        },
        forall|c: Config|
            text@ == #[trigger] shadowconfig_text(c) ==> out is Ok && out->Ok_0@ == c,
{
    match parse_toml(text) {
        Some(t) => {
            proof {
                assert forall|c: Config|
                    text@ == #[trigger] shadowconfig_text(c) implies config_of(t@) == Some(
                    c,
                ) by {
                    law_config_tree(c);
                }
            }
            match read_config(&t) {
                Some(c) => Ok(c),
                None => Err(ConfigError::Shape),
            }
        },
        None => Err(ConfigError::Syntax),
    }
}

} // verus!
