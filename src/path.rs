//! The directory walk: which entries show in the tree text, which files give
//! a record, and how a record's content is laid out.
use vstd::prelude::*;

use crate::filter::{compile_rules, decide, inclusion, rule_texts, string_texts, PatternRule};
use crate::text::{chars_of, push_char};

verus! {

/// The index of the last `.` in `name`, or -1.
pub open spec fn last_dot(name: Seq<char>) -> int
    decreases name.len(),
{
    if name.len() == 0 {
        -1
    } else if name.last() == '.' {
        name.len() - 1
    } else {
        last_dot(name.drop_last())
    }
}

/// The extension of a file name: what follows its last `.`; empty when the
/// name has no `.` past its first character.
pub open spec fn extension(name: Seq<char>) -> Seq<char> {
    let k = last_dot(name);
    if k >= 1 {
        name.subrange(k + 1, name.len() as int)
    } else {
        Seq::empty()
    }
}

/// The decimal digit for `d`.
pub open spec fn digit(d: nat) -> char {
    if d == 0 {
        '0'
    } else if d == 1 {
        '1'
    } else if d == 2 {
        '2'
    } else if d == 3 {
        '3'
    } else if d == 4 {
        '4'
    } else if d == 5 {
        '5'
    } else if d == 6 {
        '6'
    } else if d == 7 {
        '7'
    } else if d == 8 {
        '8'
    } else {
        '9'
    }
}

/// The decimal digits of `n`.
pub open spec fn decimal(n: nat) -> Seq<char>
    decreases n,
{
    if n < 10 {
        seq![digit(n)]
    } else {
        decimal(n / 10).push(digit(n % 10))
    }
}

/// `k` spaces.
pub open spec fn spaces(k: nat) -> Seq<char> {
    Seq::new(k, |i: int| ' ')
}

/// The prefix of line `n`: its number right-aligned in four columns, then ` | `.
pub open spec fn line_prefix(n: nat) -> Seq<char> {
    let d = decimal(n);
    let pad = if d.len() < 4 {
        spaces((4 - d.len()) as nat)
    } else {
        Seq::empty()
    };
    pad + d + seq![' ', '|', ' ']
}

/// The number of newlines in `t`.
pub open spec fn newlines(t: Seq<char>) -> nat
    decreases t.len(),
{
    if t.len() == 0 {
        0
    } else {
        newlines(t.drop_last()) + if t.last() == '\n' {
            1nat
        } else {
            0nat
        }
    }
}

/// `t` with each line prefixed by its number. Lines are separated by `\n`; a
/// final newline ends the last line and starts no new one.
pub open spec fn numbered(t: Seq<char>) -> Seq<char>
    decreases t.len(),
{
    if t.len() == 0 {
        Seq::empty()
    } else {
        let p = t.drop_last();
        let c = t.last();
        let start = if p.len() == 0 {
            line_prefix(1)
        } else if p.last() == '\n' {
            seq!['\n'] + line_prefix(newlines(p) + 1)
        } else {
            Seq::empty()
        };
        numbered(p) + start + if c == '\n' {
            Seq::empty()
        } else {
            seq![c]
        }
    }
}

/// The text of `n` in decimal.
fn decimal_text(n: usize) -> (r: Vec<char>)
    ensures
        r@ == decimal(n as nat),
    decreases n,
{
    if n < 10 {
        vec![digit_char(n)]
    } else {
        let mut r = decimal_text(n / 10);
        r.push(digit_char(n % 10));
        r
    }
}

/// The decimal digit for `d`.
fn digit_char(d: usize) -> (c: char)
    requires
        d < 10,
    ensures
        c == digit(d as nat),
{
    if d == 0 {
        '0'
    } else if d == 1 {
        '1'
    } else if d == 2 {
        '2'
    } else if d == 3 {
        '3'
    } else if d == 4 {
        '4'
    } else if d == 5 {
        '5'
    } else if d == 6 {
        '6'
    } else if d == 7 {
        '7'
    } else if d == 8 {
        '8'
    } else {
        '9'
    }
}

/// Appends the prefix of line `n`.
fn push_line_prefix(out: &mut String, n: usize)
    ensures
        final(out)@ == old(out)@ + line_prefix(n as nat),
{
    let d = decimal_text(n);
    let ghost start = out@;
    let mut k: usize = d.len();
    proof {
        assert(start + spaces(0) =~= start);
    }
    while k < 4
        invariant
            d@.len() <= k,
            d@.len() < 4 ==> k <= 4,
            d@.len() >= 4 ==> k == d@.len(),
            out@ == start + spaces((k - d@.len()) as nat),
        decreases 4 - k,
    {
        push_char(out, ' ');
        assert(out@ =~= start + spaces((k + 1 - d@.len()) as nat));
        k += 1;
    }
    let ghost padded = out@;
    let mut i: usize = 0;
    proof {
        assert(padded + d@.take(0) =~= padded);
    }
    while i < d.len()
        invariant
            i <= d@.len(),
            out@ == padded + d@.take(i as int),
        decreases d.len() - i,
    {
        push_char(out, d[i]);
        assert(out@ =~= padded + d@.take(i + 1));
        i += 1;
    }
    assert(d@.take(d@.len() as int) =~= d@);
    out.append(" | ");
    proof {
        reveal_strlit(" | ");
        assert(" | "@ =~= seq![' ', '|', ' ']);
        let pad = if d@.len() < 4 {
            spaces((4 - d@.len()) as nat)
        } else {
            Seq::empty()
        };
        if d@.len() >= 4 {
            assert(spaces(0) =~= Seq::<char>::empty());
        }
        assert(padded =~= start + pad);
        assert(line_prefix(n as nat) == pad + d@ + seq![' ', '|', ' ']);
        assert(out@ =~= start + line_prefix(n as nat));
    }
}

/// Numbers the lines of `text`: each line gets its 1-based number,
/// right-aligned in four columns, and ` | ` in front.
pub fn number_lines(text: &str) -> (r: String)
    ensures
        r@ == numbered(text@),
{
    let cs = chars_of(text);
    let mut out = String::new();
    let mut nl: usize = 0;
    let mut i: usize = 0;
    while i < cs.len()
        invariant
            i <= cs@.len(),
            cs@ == text@,
            nl <= i,
            nl == newlines(cs@.take(i as int)),
            out@ == numbered(cs@.take(i as int)),
        decreases cs.len() - i,
    {
        let c = cs[i];
        let ghost before = out@;
        proof {
            assert(cs@.take(i + 1).drop_last() =~= cs@.take(i as int));
            if i > 0 {
                assert(cs@.take(i as int).last() == cs@[i - 1]);
            }
        }
        if i == 0 {
            push_line_prefix(&mut out, 1);
        } else if cs[i - 1] == '\n' {
            push_char(&mut out, '\n');
            push_line_prefix(&mut out, nl + 1);
        }
        if c == '\n' {
            nl += 1;
        } else {
            push_char(&mut out, c);
        }
        proof {
            assert(out@ =~= numbered(cs@.take(i + 1)));
        }
        i += 1;
    }
    assert(cs@.take(cs@.len() as int) =~= cs@);
    out
}

/// The extension of a file name.
pub fn file_extension(name: &str) -> (r: String)
    ensures
        r@ == extension(name@),
{
    let cs = chars_of(name);
    let mut k: usize = cs.len();
    assert(cs@.take(k as int) =~= cs@);
    while k > 0 && cs[k - 1] != '.'
        invariant
            k <= cs@.len(),
            cs@ == name@,
            last_dot(name@) == last_dot(cs@.take(k as int)),
        decreases k,
    {
        assert(cs@.take(k as int).drop_last() =~= cs@.take(k - 1));
        k -= 1;
    }
    proof {
        if k > 0 {
            assert(cs@.take(k as int).last() == cs@[k - 1]);
        }
        assert(cs@.take(cs@.len() as int) =~= cs@);
    }
    let mut out = String::new();
    if k >= 2 {
        let mut i: usize = k;
        while i < cs.len()
            invariant
                k <= i <= cs@.len(),
                out@ == cs@.subrange(k as int, i as int),
            decreases cs.len() - i,
        {
            push_char(&mut out, cs[i]);
            assert(out@ =~= cs@.subrange(k as int, i + 1));
            i += 1;
        }
    }
    proof {
        if k == 0 {
            assert(cs@.take(0) =~= Seq::<char>::empty());
        }
        if k < 2 {
            assert(out@ =~= extension(name@));
        }
    }
    out
}

/// The fence that opens and closes a code block.
pub open spec fn fence() -> Seq<char> {
    seq!['`', '`', '`']
}

/// The content of a file record: the text, with its lines numbered when
/// `line_number` is set, inside a code block tagged with the file's extension
/// unless `no_codeblock` is set.
pub open spec fn file_content(name: Seq<char>, text: Seq<char>, line_number: bool, no_codeblock: bool) -> Seq<
    char,
> {
    let body = if line_number {
        numbered(text)
    } else {
        text
    };
    if no_codeblock {
        body
    } else {
        fence() + extension(name) + seq!['\n'] + body + seq!['\n'] + fence()
    }
}

/// Lays out the content of the file `name`.
pub fn format_content(name: &str, text: &str, line_number: bool, no_codeblock: bool) -> (r: String)
    ensures
        r@ == file_content(name@, text@, line_number, no_codeblock),
{
    let body = if line_number {
        number_lines(text)
    } else {
        text.to_owned()
    };
    if no_codeblock {
        return body;
    }
    let mut out = String::new();
    push_char(&mut out, '`');
    push_char(&mut out, '`');
    push_char(&mut out, '`');
    let ext = file_extension(name);
    out.append(ext.as_str());
    push_char(&mut out, '\n');
    out.append(body.as_str());
    push_char(&mut out, '\n');
    push_char(&mut out, '`');
    push_char(&mut out, '`');
    push_char(&mut out, '`');
    assert(out@ =~= file_content(name@, text@, line_number, no_codeblock));
    out
}

/// One entry of the directory being walked, as read from disk.
pub struct FsEntry {
    /// The entry's own name.
    pub name: String,
    /// Its resolved path, which the rules are tested against and the file
    /// record carries.
    pub path: String,
    /// Whether it is a directory.
    pub is_dir: bool,
    /// A file's text; `None` when it could not be read as UTF-8.
    pub text: Option<String>,
    /// A directory's entries, in the order they are to be shown.
    pub children: Vec<FsEntry>,
}

/// A file that passed the rules, with its laid-out content.
pub struct FileRecord {
    pub path: String,
    pub content: String,
}

/// The rules and layout settings of one walk.
pub struct WalkConfig {
    pub include_rules: Vec<PatternRule>,
    pub exclude_rules: Vec<PatternRule>,
    /// Which side wins when an include and an exclude rule both match.
    pub include_priority: bool,
    /// Number the lines of each file's content.
    pub line_number: bool,
    /// Leave entries that fail the rules out of the tree text too.
    pub exclude_from_tree: bool,
    /// Give content as it is, without a code block around it.
    pub no_codeblock: bool,
}

/// The settings of a walk, with its rules as pattern texts.
pub struct WalkPolicy {
    pub includes: Seq<Seq<char>>,
    pub excludes: Seq<Seq<char>>,
    pub include_priority: bool,
    pub line_number: bool,
    pub exclude_from_tree: bool,
    pub no_codeblock: bool,
}

impl WalkPolicy {
    /// Whether the rules keep `path`.
    pub open spec fn keeps(self, path: Seq<char>) -> bool {
        inclusion(path, self.includes, self.excludes, self.include_priority)
    }
}

impl WalkConfig {
    /// Compiles each rule once and keeps the settings.
    pub fn new(
        include_patterns: &[String],
        exclude_patterns: &[String],
        include_priority: bool,
        line_number: bool,
        exclude_from_tree: bool,
        no_codeblock: bool,
    ) -> (r: WalkConfig)
        ensures
            r.policy() == policy_of(
                include_patterns@,
                exclude_patterns@,
                include_priority,
                line_number,
                exclude_from_tree,
                no_codeblock,
            ),
    {
        WalkConfig {
            include_rules: compile_rules(include_patterns),
            exclude_rules: compile_rules(exclude_patterns),
            include_priority,
            line_number,
            exclude_from_tree,
            no_codeblock,
        }
    }

    /// The settings of this configuration.
    pub open spec fn policy(&self) -> WalkPolicy {
        WalkPolicy {
            includes: rule_texts(self.include_rules@),
            excludes: rule_texts(self.exclude_rules@),
            include_priority: self.include_priority,
            line_number: self.line_number,
            exclude_from_tree: self.exclude_from_tree,
            no_codeblock: self.no_codeblock,
        }
    }
}

/// Whether a file the rules keep lies in (or is) `e`.
pub open spec fn retained(e: FsEntry, c: WalkPolicy) -> bool
    decreases e, e.children.len() + 1,
{
    if e.is_dir {
        any_retained(e, c, e.children.len() as int)
    } else {
        c.keeps(e.path@)
    }
}

/// Whether one of the first `n` entries of `e` is retained.
pub open spec fn any_retained(e: FsEntry, c: WalkPolicy, n: int) -> bool
    decreases e, n,
{
    if n <= 0 || n > e.children.len() {
        false
    } else {
        any_retained(e, c, n - 1) || retained(e.children[n - 1], c)
    }
}

/// Whether `e` shows in the tree text: always, unless entries failing the
/// rules are left out of the tree.
pub open spec fn shown(e: FsEntry, c: WalkPolicy) -> bool {
    !c.exclude_from_tree || retained(e, c)
}

/// The indentation added per level of the tree.
pub open spec fn indent_unit() -> Seq<char> {
    seq![' ', ' ']
}

/// The line of one entry: its name after the indentation, a `/` after a
/// directory's name.
pub open spec fn entry_line(e: FsEntry, indent: Seq<char>) -> Seq<char> {
    indent + e.name@ + if e.is_dir {
        seq!['/', '\n']
    } else {
        seq!['\n']
    }
}

/// The tree text of `e`, at indentation `indent`.
pub open spec fn tree_text(e: FsEntry, c: WalkPolicy, indent: Seq<char>) -> Seq<char>
    decreases e, e.children.len() + 1,
{
    if !shown(e, c) {
        Seq::empty()
    } else if e.is_dir {
        entry_line(e, indent) + children_text(e, c, indent + indent_unit(), e.children.len() as int)
    } else {
        entry_line(e, indent)
    }
}

/// The tree texts of the first `n` entries of `e`, one after the other.
pub open spec fn children_text(e: FsEntry, c: WalkPolicy, indent: Seq<char>, n: int) -> Seq<char>
    decreases e, n,
{
    if n <= 0 || n > e.children.len() {
        Seq::empty()
    } else {
        children_text(e, c, indent, n - 1) + tree_text(e.children[n - 1], c, indent)
    }
}

/// A record as a (path, content) pair.
pub open spec fn record_view(r: FileRecord) -> (Seq<char>, Seq<char>) {
    (r.path@, r.content@)
}

/// The records of a list, as pairs.
pub open spec fn record_views(v: Seq<FileRecord>) -> Seq<(Seq<char>, Seq<char>)> {
    v.map_values(|r: FileRecord| record_view(r))
}

/// The file records that `e` gives: one for each file in it that the rules
/// keep and whose text could be read, in walk order.
pub open spec fn records_of(e: FsEntry, c: WalkPolicy) -> Seq<(Seq<char>, Seq<char>)>
    decreases e, e.children.len() + 1,
{
    if e.is_dir {
        children_records(e, c, e.children.len() as int)
    } else if c.keeps(e.path@) && e.text is Some {
        seq![(e.path@, file_content(e.name@, e.text->0@, c.line_number, c.no_codeblock))]
    } else {
        Seq::empty()
    }
}

/// The records of the first `n` entries of `e`, one after the other.
pub open spec fn children_records(e: FsEntry, c: WalkPolicy, n: int) -> Seq<(Seq<char>, Seq<char>)>
    decreases e, n,
{
    if n <= 0 || n > e.children.len() {
        Seq::empty()
    } else {
        children_records(e, c, n - 1) + records_of(e.children[n - 1], c)
    }
}

/// Appends the line of one entry.
fn push_entry_line(out: &mut String, e: &FsEntry, indent: &String)
    ensures
        final(out)@ == old(out)@ + entry_line(*e, indent@),
{
    out.append(indent.as_str());
    out.append(e.name.as_str());
    if e.is_dir {
        push_char(out, '/');
    }
    push_char(out, '\n');
    assert(out@ =~= old(out)@ + entry_line(*e, indent@));
}

/// Walks `e`: returns its tree text and whether it is retained, and appends
/// its file records to `records`.
fn walk(e: &FsEntry, c: &WalkConfig, indent: &String, records: &mut Vec<FileRecord>) -> (r: (
    String,
    bool,
))
    ensures
        r.0@ == tree_text(*e, c.policy(), indent@),
        r.1 == retained(*e, c.policy()),
        record_views(final(records)@) == record_views(old(records)@) + records_of(*e, c.policy()),
    decreases e,
{
    if !e.is_dir {
        let keep = decide(
            e.path.as_str(),
            c.include_rules.as_slice(),
            c.exclude_rules.as_slice(),
            c.include_priority,
        );
        let ghost before = records@;
        if keep {
            match &e.text {
                Some(t) => {
                    let content = format_content(
                        e.name.as_str(),
                        t.as_str(),
                        c.line_number,
                        c.no_codeblock,
                    );
                    records.push(FileRecord { path: e.path.clone(), content });
                },
                None => {},
            }
        }
        assert(record_views(records@) =~= record_views(before) + records_of(*e, c.policy()));
        let mut text = String::new();
        if !c.exclude_from_tree || keep {
            push_entry_line(&mut text, e, indent);
        }
        assert(text@ =~= tree_text(*e, c.policy(), indent@));
        return (text, keep);
    }
    let mut child_indent = indent.clone();
    child_indent.append("  ");
    proof {
        reveal_strlit("  ");
        assert(child_indent@ =~= indent@ + indent_unit());
    }
    let mut body = String::new();
    let mut any = false;
    let ghost start = records@;
    let mut i: usize = 0;
    proof {
        assert(record_views(start) + Seq::<(Seq<char>, Seq<char>)>::empty() =~= record_views(start));
    }
    while i < e.children.len()
        invariant
            i <= e.children@.len(),
            e.is_dir,
            child_indent@ == indent@ + indent_unit(),
            body@ == children_text(*e, c.policy(), child_indent@, i as int),
            any == any_retained(*e, c.policy(), i as int),
            record_views(records@) == record_views(start) + children_records(*e, c.policy(), i as int),
        decreases e.children.len() - i,
    {
        let ghost mid = records@;
        let (t, r) = walk(&e.children[i], c, &child_indent, records);
        body.append(t.as_str());
        any = any || r;
        proof {
            assert(record_views(records@) =~= record_views(start) + children_records(*e, c.policy(), i + 1));
        }
        i += 1;
    }
    let mut text = String::new();
    if !c.exclude_from_tree || any {
        push_entry_line(&mut text, e, indent);
        text.append(body.as_str());
    }
    assert(text@ =~= tree_text(*e, c.policy(), indent@));
    (text, any)
}

/// The settings of a walk given its patterns as strings.
pub open spec fn policy_of(
    include_patterns: Seq<String>,
    exclude_patterns: Seq<String>,
    include_priority: bool,
    line_number: bool,
    exclude_from_tree: bool,
    no_codeblock: bool,
) -> WalkPolicy {
    WalkPolicy {
        includes: string_texts(include_patterns),
        excludes: string_texts(exclude_patterns),
        include_priority,
        line_number,
        exclude_from_tree,
        no_codeblock,
    }
}

/// Walks the tree under `root`: returns the tree text (two spaces of
/// indentation per level, a `/` after each directory's name) and the records
/// of the files the rules keep, in walk order. With `exclude_from_tree`, an
/// entry holding no kept file is left out of the tree text as well.
pub fn traverse_directory(
    root: &FsEntry,
    include_patterns: &[String],
    exclude_patterns: &[String],
    include_priority: bool,
    line_number: bool,
    exclude_from_tree: bool,
    no_codeblock: bool,
) -> (r: (String, Vec<FileRecord>))
    ensures
        r.0@ == tree_text(
            *root,
            policy_of(
                include_patterns@,
                exclude_patterns@,
                include_priority,
                line_number,
                exclude_from_tree,
                no_codeblock,
            ),
            Seq::empty(),
        ),
        record_views(r.1@) == records_of(
            *root,
            policy_of(
                include_patterns@,
                exclude_patterns@,
                include_priority,
                line_number,
                exclude_from_tree,
                no_codeblock,
            ),
        ),
{
    let config = WalkConfig::new(
        include_patterns,
        exclude_patterns,
        include_priority,
        line_number,
        exclude_from_tree,
        no_codeblock,
    );
    let mut records: Vec<FileRecord> = Vec::new();
    let indent = String::new();
    let (tree, _) = walk(root, &config, &indent, &mut records);
    assert(record_views(records@) =~= Seq::<(Seq<char>, Seq<char>)>::empty() + records_of(
        *root,
        config.policy(),
    ));
    (tree, records)
}

/// The listing of every entry under `e`, whatever the rules say.
pub open spec fn full_text(e: FsEntry, indent: Seq<char>) -> Seq<char>
    decreases e, e.children.len() + 1,
{
    if e.is_dir {
        entry_line(e, indent) + full_children_text(e, indent + indent_unit(), e.children.len() as int)
    } else {
        entry_line(e, indent)
    }
}

/// The listings of the first `n` entries of `e`, one after the other.
pub open spec fn full_children_text(e: FsEntry, indent: Seq<char>, n: int) -> Seq<char>
    decreases e, n,
{
    if n <= 0 || n > e.children.len() {
        Seq::empty()
    } else {
        full_children_text(e, indent, n - 1) + full_text(e.children[n - 1], indent)
    }
}

/// When entries failing the rules stay in the tree, the tree text lists every
/// entry on disk, whatever the rules.
pub proof fn lemma_tree_lists_every_entry(e: FsEntry, c: WalkPolicy, indent: Seq<char>)
    requires
        !c.exclude_from_tree,
    ensures
        tree_text(e, c, indent) == full_text(e, indent),
    decreases e, e.children.len() + 1,
{
    if e.is_dir {
        lemma_children_list_every_entry(e, c, indent + indent_unit(), e.children.len() as int);
    }
}

/// The children's part of `lemma_tree_lists_every_entry`.
proof fn lemma_children_list_every_entry(e: FsEntry, c: WalkPolicy, indent: Seq<char>, n: int)
    requires
        !c.exclude_from_tree,
    ensures
        children_text(e, c, indent, n) == full_children_text(e, indent, n),
    decreases e, n,
{
    if n > 0 && n <= e.children.len() {
        lemma_children_list_every_entry(e, c, indent, n - 1);
        lemma_tree_lists_every_entry(e.children[n - 1], c, indent);
    }
}

/// Every file record belongs to a file that the rules keep.
pub proof fn lemma_records_pass_rules(e: FsEntry, c: WalkPolicy)
    ensures
        forall|k: int|
            0 <= k < records_of(e, c).len() ==> c.keeps(#[trigger] records_of(e, c)[k].0),
    decreases e, e.children.len() + 1,
{
    if e.is_dir {
        lemma_children_records_pass_rules(e, c, e.children.len() as int);
        let r = children_records(e, c, e.children.len() as int);
        assert(records_of(e, c) == r);
        assert forall|k: int| 0 <= k < records_of(e, c).len() implies c.keeps(
            #[trigger] records_of(e, c)[k].0,
        ) by {
            assert(r[k] == records_of(e, c)[k]);
        }
    } else if c.keeps(e.path@) && e.text is Some {
        assert(records_of(e, c)[0].0 == e.path@);
    }
}

/// The children's part of `lemma_records_pass_rules`.
proof fn lemma_children_records_pass_rules(e: FsEntry, c: WalkPolicy, n: int)
    ensures
        forall|k: int|
            0 <= k < children_records(e, c, n).len() ==> c.keeps(
                #[trigger] children_records(e, c, n)[k].0,
            ),
    decreases e, n,
{
    if n > 0 && n <= e.children.len() {
        lemma_children_records_pass_rules(e, c, n - 1);
        lemma_records_pass_rules(e.children[n - 1], c);
        let a = children_records(e, c, n - 1);
        let b = records_of(e.children[n - 1], c);
        assert forall|k: int| 0 <= k < (a + b).len() implies c.keeps(#[trigger] (a + b)[k].0) by {
            if k < a.len() {
                assert((a + b)[k] == a[k]);
            } else {
                assert((a + b)[k] == b[k - a.len()]);
            }
        }
    }
}

/// Whether entries are left out of the tree text has no bearing on the file
/// records.
pub proof fn lemma_records_ignore_tree_mode(e: FsEntry, c: WalkPolicy, d: WalkPolicy)
    requires
        c.includes == d.includes,
        c.excludes == d.excludes,
        c.include_priority == d.include_priority,
        c.line_number == d.line_number,
        c.no_codeblock == d.no_codeblock,
    ensures
        records_of(e, c) == records_of(e, d),
    decreases e, e.children.len() + 1,
{
    if e.is_dir {
        lemma_children_records_ignore_tree_mode(e, c, d, e.children.len() as int);
    }
}

/// The children's part of `lemma_records_ignore_tree_mode`.
proof fn lemma_children_records_ignore_tree_mode(e: FsEntry, c: WalkPolicy, d: WalkPolicy, n: int)
    requires
        c.includes == d.includes,
        c.excludes == d.excludes,
        c.include_priority == d.include_priority,
        c.line_number == d.line_number,
        c.no_codeblock == d.no_codeblock,
    ensures
        children_records(e, c, n) == children_records(e, d, n),
    decreases e, n,
{
    if n > 0 && n <= e.children.len() {
        lemma_children_records_ignore_tree_mode(e, c, d, n - 1);
        lemma_records_ignore_tree_mode(e.children[n - 1], c, d);
    }
}

/// Every file in or under `e`, in walk order.
pub open spec fn file_entries(e: FsEntry) -> Seq<FsEntry>
    decreases e, e.children.len() + 1,
{
    if e.is_dir {
        children_files(e, e.children.len() as int)
    } else {
        seq![e]
    }
}

/// The files in or under the first `n` entries of `e`, in walk order.
pub open spec fn children_files(e: FsEntry, n: int) -> Seq<FsEntry>
    decreases e, n,
{
    if n <= 0 || n > e.children.len() {
        Seq::empty()
    } else {
        children_files(e, n - 1) + file_entries(e.children[n - 1])
    }
}

/// The record one file gives: one when the rules keep it and its text could
/// be read, none otherwise.
pub open spec fn file_record(f: FsEntry, c: WalkPolicy) -> Seq<(Seq<char>, Seq<char>)> {
    if c.keeps(f.path@) && f.text is Some {
        seq![(f.path@, file_content(f.name@, f.text->0@, c.line_number, c.no_codeblock))]
    } else {
        Seq::empty()
    }
}

/// The records of a list of files, one after the other.
pub open spec fn records_for(files: Seq<FsEntry>, c: WalkPolicy) -> Seq<(Seq<char>, Seq<char>)>
    decreases files.len(),
{
    if files.len() == 0 {
        Seq::empty()
    } else {
        records_for(files.drop_last(), c) + file_record(files.last(), c)
    }
}

proof fn lemma_records_for_concat(a: Seq<FsEntry>, b: Seq<FsEntry>, c: WalkPolicy)
    ensures
        records_for(a + b, c) == records_for(a, c) + records_for(b, c),
    decreases b.len(),
{
    if b.len() == 0 {
        assert(a + b =~= a);
        assert(records_for(a, c) + Seq::empty() =~= records_for(a, c));
    } else {
        lemma_records_for_concat(a, b.drop_last(), c);
        assert((a + b).drop_last() =~= a + b.drop_last());
        assert((a + b).last() == b.last());
        assert(records_for(a, c) + records_for(b, c) =~= records_for(a, c) + records_for(
            b.drop_last(),
            c,
        ) + file_record(b.last(), c));
    }
}

/// The file records are, in walk order, exactly one for each file in the tree
/// that the rules keep and whose text could be read.
pub proof fn lemma_one_record_per_kept_file(e: FsEntry, c: WalkPolicy)
    ensures
        records_of(e, c) == records_for(file_entries(e), c),
    decreases e, e.children.len() + 1,
{
    if e.is_dir {
        lemma_children_one_record_per_kept_file(e, c, e.children.len() as int);
    } else {
        assert(seq![e].drop_last() =~= Seq::<FsEntry>::empty());
        assert(seq![e].last() == e);
        assert(records_for(Seq::<FsEntry>::empty(), c) == Seq::<(Seq<char>, Seq<char>)>::empty());
        assert(Seq::<(Seq<char>, Seq<char>)>::empty() + file_record(e, c) =~= file_record(e, c));
        assert(records_for(seq![e], c) == file_record(e, c));
        assert(records_of(e, c) =~= file_record(e, c));
    }
}

/// The children's part of `lemma_one_record_per_kept_file`.
proof fn lemma_children_one_record_per_kept_file(e: FsEntry, c: WalkPolicy, n: int)
    ensures
        children_records(e, c, n) == records_for(children_files(e, n), c),
    decreases e, n,
{
    if n > 0 && n <= e.children.len() {
        lemma_children_one_record_per_kept_file(e, c, n - 1);
        lemma_one_record_per_kept_file(e.children[n - 1], c);
        lemma_records_for_concat(children_files(e, n - 1), file_entries(e.children[n - 1]), c);
    }
}

} // verus!
