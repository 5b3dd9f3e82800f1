//! The help manual's small Markdown dialect: headings, paragraphs with bold
//! and italic text, bullets, standalone links and pipe tables. The text is
//! turned into a list of blocks that the interface then lays out.
use vstd::prelude::*;
use crate::text::{
    append_chars, chars_of, copy_chars, find_char_from, find_char_from_exec, find_exec, find_seq,
    has_prefix, has_prefix_exec, has_suffix, has_suffix_exec, join_chars, join_seq, lines_of,
    lines_seq, lit, push_str, slice_chars, split_char, split_char_seq, string_of, trim_chars,
    trim_matches_chars, trim_matches_seq, trim_seq, trim_start_chars, trim_start_seq, views,
    contains_exec, contains_seq,
};
use crate::strset::strings_of;

verus! {

// ---------------------------------------------------------------------------
// Links
// ---------------------------------------------------------------------------

/// A line that is exactly `[label](url)` (after trimming).
pub open spec fn parse_link_spec(line: Seq<char>) -> Option<(Seq<char>, Seq<char>)> {
    let t = trim_seq(line);
    if !(t.len() > 0 && t[0] == '[') {
        None
    } else {
        match find_char_from(t, ']', 0) {
            None => None,
            Some(close) => {
                let rest = t.skip(close + 1);
                if rest.len() > 0 && rest[0] == '(' && rest.last() == ')' && rest.len() >= 2 {
                    Some((t.subrange(1, close), rest.subrange(1, rest.len() - 1)))
                } else {
                    None
                }
            },
        }
    }
}

/// The label and URL of a line that is a standalone link.
pub fn parse_link(line: &str) -> (r: Option<(String, String)>)
    ensures
        match r {
            Some((l, u)) => parse_link_spec(line@) == Some((l@, u@)),
            None => parse_link_spec(line@) is None,
        },
{
    let raw = chars_of(line);
    let t = trim_chars(&raw);
    if !(t.len() > 0 && t[0] == '[') {
        return None;
    }
    let close = match find_char_from_exec(&t, ']', 0) {
        Some(c) => c,
        None => return None,
    };
    proof {
        lemma_find_char_in_range(t@, ']', 0);
    }
    let rest = slice_chars(&t, close + 1, t.len());
    assert(rest@ =~= t@.skip(close + 1));
    if rest.len() > 0 && rest[0] == '(' && rest[rest.len() - 1] == ')' && rest.len() >= 2 {
        let label = slice_chars(&t, 1, close);
        let url = slice_chars(&rest, 1, rest.len() - 1);
        Some((string_of(&label), string_of(&url)))
    } else {
        None
    }
}

proof fn lemma_find_char_in_range(s: Seq<char>, c: char, i: int)
    requires
        0 <= i,
    ensures
        find_char_from(s, c, i) matches Some(k) ==> i <= k < s.len() && s[k] == c,
    decreases s.len() - i,
{
    if i < s.len() && s[i] != c {
        lemma_find_char_in_range(s, c, i + 1);
    }
}

// ---------------------------------------------------------------------------
// Inline markup
// ---------------------------------------------------------------------------

/// `&`, `<` and `>` replaced by their entities.
pub open spec fn escape_entities(s: Seq<char>) -> Seq<char>
    decreases s.len(),
{
    if s.len() == 0 {
        Seq::empty()
    } else {
        escape_entities(s.drop_last()) + if s.last() == '&' {
            "&amp;"@
        } else if s.last() == '<' {
            "&lt;"@
        } else if s.last() == '>' {
            "&gt;"@
        } else {
            seq![s.last()]
        }
    }
}

fn escape_entities_exec(s: &Vec<char>) -> (out: Vec<char>)
    ensures
        out@ == escape_entities(s@),
{
    let mut out: Vec<char> = Vec::new();
    let mut i: usize = 0;
    while i < s.len()
        invariant
            i <= s.len(),
            out@ == escape_entities(s@.take(i as int)),
        decreases s.len() - i,
    {
        let c = s[i];
        assert(s@.take(i + 1).drop_last() =~= s@.take(i as int));
        if c == '&' {
            push_str(&mut out, "&amp;");
        } else if c == '<' {
            push_str(&mut out, "&lt;");
        } else if c == '>' {
            push_str(&mut out, "&gt;");
        } else {
            out.push(c);
            assert(out@ =~= escape_entities(s@.take(i as int)) + seq![c]);
        }
        i = i + 1;
    }
    assert(s@.take(s.len() as int) =~= s@);
    out
}

/// Pairs of `d` around text become `o` text `c`; an unpaired `d` stays.
pub open spec fn replace_delimited_spec(rest: Seq<char>, d: Seq<char>, o: Seq<char>, c: Seq<char>) -> Seq<char>
    decreases rest.len(),
{
    if d.len() == 0 {
        rest
    } else {
        match find_seq(rest, d) {
            None => rest,
            Some(s) => {
                let after = rest.skip(s + d.len());
                if s < 0 || s + d.len() > rest.len() {
                    rest
                } else {
                    match find_seq(after, d) {
                        None => rest.take(s) + d + replace_delimited_spec(after, d, o, c),
                        Some(e) => if e < 0 || e + d.len() > after.len() {
                            rest
                        } else {
                            rest.take(s) + o + after.take(e) + c + replace_delimited_spec(
                                after.skip(e + d.len()),
                                d,
                                o,
                                c,
                            )
                        },
                    }
                }
            },
        }
    }
}

proof fn lemma_find_seq_range(s: Seq<char>, q: Seq<char>)
    ensures
        find_seq(s, q) matches Some(k) ==> 0 <= k && k + q.len() <= s.len(),
{
    crate::text::lemma_find_from(s, q, 0);
}

/// Replaces pairs of `delim` around text by `open` text `close`, left to
/// right; a `delim` without a partner is kept.
pub fn replace_delimited(input: &str, delim: &str, open: &str, close: &str) -> (r: String)
    requires
        delim@.len() > 0,
    ensures
        r@ == replace_delimited_spec(input@, delim@, open@, close@),
{
    let v = chars_of(input);
    let d = chars_of(delim);
    let o = chars_of(open);
    let c = chars_of(close);
    let out = replace_delimited_chars(&v, &d, &o, &c);
    string_of(&out)
}

fn replace_delimited_chars(input: &Vec<char>, d: &Vec<char>, o: &Vec<char>, c: &Vec<char>) -> (out: Vec<char>)
    requires
        d@.len() > 0,
    ensures
        out@ == replace_delimited_spec(input@, d@, o@, c@),
{
    let mut result: Vec<char> = Vec::new();
    let mut rest = copy_chars(input);
    loop
        invariant
            d@.len() > 0,
            replace_delimited_spec(input@, d@, o@, c@) == result@ + replace_delimited_spec(rest@, d@, o@, c@),
        decreases rest@.len(),
    {
        proof {
            lemma_find_seq_range(rest@, d@);
        }
        match find_exec(&rest, d) {
            None => {
                append_chars(&mut result, &rest);
                return result;
            },
            Some(start) => {
                assert(find_seq(rest@, d@) == Some(start as int));
                assert(start + d@.len() <= rest@.len());
                assert(d@.len() == d.len());
                assert(start + d.len() <= rest.len());
                let before = slice_chars(&rest, 0, start);
                assert(before@ =~= rest@.take(start as int));
                append_chars(&mut result, &before);
                let after_open = slice_chars(&rest, start + d.len(), rest.len());
                assert(after_open@ =~= rest@.skip(start + d@.len()));
                proof {
                    lemma_find_seq_range(after_open@, d@);
                }
                match find_exec(&after_open, d) {
                    None => {
                        append_chars(&mut result, d);
                        rest = after_open;
                    },
                    Some(end) => {
                        assert(find_seq(after_open@, d@) == Some(end as int));
                        assert(end + d@.len() <= after_open@.len());
                        append_chars(&mut result, o);
                        let inner = slice_chars(&after_open, 0, end);
                        assert(inner@ =~= after_open@.take(end as int));
                        append_chars(&mut result, &inner);
                        append_chars(&mut result, c);
                        let next = slice_chars(&after_open, end + d.len(), after_open.len());
                        assert(next@ =~= after_open@.skip(end + d@.len()));
                        rest = next;
                    },
                }
            },
        }
    }
}

/// Entities escaped, then `**bold**`, then `*italic*`.
pub open spec fn inline_markup_spec(text: Seq<char>) -> Seq<char> {
    replace_delimited_spec(
        replace_delimited_spec(escape_entities(text), "**"@, "<b>"@, "</b>"@),
        "*"@,
        "<i>"@,
        "</i>"@,
    )
}

fn inline_markup_chars(text: &Vec<char>) -> (out: Vec<char>)
    ensures
        out@ == inline_markup_spec(text@),
{
    let escaped = escape_entities_exec(text);
    let d2 = lit("**");
    let d1 = lit("*");
    proof {
        reveal_strlit("**");
        reveal_strlit("*");
    }
    let bold = replace_delimited_chars(&escaped, &d2, &lit("<b>"), &lit("</b>"));
    replace_delimited_chars(&bold, &d1, &lit("<i>"), &lit("</i>"))
}

/// Pango markup for a line of text: entities escaped, `**bold**` and
/// `*italic*` turned into tags.
pub fn inline_markup(text: &str) -> (r: String)
    ensures
        r@ == inline_markup_spec(text@),
{
    let v = chars_of(text);
    let out = inline_markup_chars(&v);
    string_of(&out)
}

// ---------------------------------------------------------------------------
// Blocks
// ---------------------------------------------------------------------------

/// One laid-out piece of the manual.
#[derive(Debug)]
pub enum MarkdownBlock {
    /// A paragraph, as Pango markup.
    Paragraph(String),
    /// A table: the first row is the header; cells are plain text.
    Table(Vec<Vec<String>>),
    /// A heading of level 1, 2 or 3, as plain text; `first` tells whether it is
    /// the first heading of levels 1 and 2.
    Heading { level: u32, text: String, first: bool },
    /// A standalone link.
    Link { label: String, url: String },
    /// A bullet item, as Pango markup (bullet included).
    Bullet(String),
}

/// The value of a block, each string by its view.
pub enum BlockValue {
    Paragraph(Seq<char>),
    Table(Seq<Seq<Seq<char>>>),
    Heading(u32, Seq<char>, bool),
    Link(Seq<char>, Seq<char>),
    Bullet(Seq<char>),
}

pub open spec fn table_value(rows: Seq<Vec<String>>) -> Seq<Seq<Seq<char>>> {
    rows.map_values(|r: Vec<String>| crate::text::string_views(r@))
}

pub open spec fn block_value(b: MarkdownBlock) -> BlockValue {
    match b {
        MarkdownBlock::Paragraph(m) => BlockValue::Paragraph(m@),
        MarkdownBlock::Table(rows) => BlockValue::Table(table_value(rows@)),
        MarkdownBlock::Heading { level, text, first } => BlockValue::Heading(level, text@, first),
        MarkdownBlock::Link { label, url } => BlockValue::Link(label@, url@),
        MarkdownBlock::Bullet(m) => BlockValue::Bullet(m@),
    }
}

pub open spec fn block_values(bs: Seq<MarkdownBlock>) -> Seq<BlockValue> {
    bs.map_values(|b: MarkdownBlock| block_value(b))
}

/// The state while reading the manual line by line.
pub struct MdState {
    pub blocks: Seq<BlockValue>,
    pub para: Seq<Seq<char>>,
    pub table: Seq<Seq<Seq<char>>>,
    pub first_heading: bool,
}

/// The pending paragraph lines flushed: joined by spaces, emitted as markup
/// unless blank.
pub open spec fn flush_paragraph_spec(s: MdState) -> MdState {
    if s.para.len() == 0 {
        s
    } else {
        let text = join_seq(s.para, " "@);
        MdState {
            blocks: if trim_seq(text).len() == 0 {
                s.blocks
            } else {
                s.blocks.push(BlockValue::Paragraph(inline_markup_spec(text)))
            },
            para: Seq::empty(),
            ..s
        }
    }
}

/// The pending table rows flushed.
pub open spec fn flush_table_spec(s: MdState) -> MdState {
    if s.table.len() == 0 {
        s
    } else {
        MdState { blocks: s.blocks.push(BlockValue::Table(s.table)), table: Seq::empty(), ..s }
    }
}

/// The cells of a table line: the trimmed line without outer pipes, split at
/// pipes, each cell trimmed.
pub open spec fn table_cells(line: Seq<char>) -> Seq<Seq<char>> {
    split_char_seq(trim_matches_seq(trim_seq(line), '|'), '|').map_values(|c: Seq<char>| trim_seq(c))
}

/// One line of the manual read.
pub open spec fn md_step(s: MdState, line: Seq<char>) -> MdState {
    let ts = trim_start_seq(line);
    if ts.len() > 0 && ts[0] == '|' {
        let s1 = flush_paragraph_spec(s);
        if contains_seq(line, "---"@) {
            s1
        } else {
            MdState { table: s1.table.push(table_cells(line)), ..s1 }
        }
    } else {
        let s1 = flush_table_spec(s);
        if has_prefix(line, "### "@) {
            let s2 = flush_paragraph_spec(s1);
            MdState { blocks: s2.blocks.push(BlockValue::Heading(3, line.skip(4), false)), ..s2 }
        } else if has_prefix(line, "## "@) {
            let s2 = flush_paragraph_spec(s1);
            MdState {
                blocks: s2.blocks.push(BlockValue::Heading(2, line.skip(3), s2.first_heading)),
                first_heading: false,
                ..s2
            }
        } else if has_prefix(line, "# "@) {
            let s2 = flush_paragraph_spec(s1);
            MdState {
                blocks: s2.blocks.push(BlockValue::Heading(1, line.skip(2), s2.first_heading)),
                first_heading: false,
                ..s2
            }
        } else if ts.len() > 0 && ts[0] == '[' && parse_link_spec(trim_seq(line)) is Some {
            let s2 = flush_paragraph_spec(s1);
            let l = parse_link_spec(trim_seq(line))->0;
            MdState { blocks: s2.blocks.push(BlockValue::Link(l.0, l.1)), ..s2 }
        } else if has_prefix(line, "- "@) || has_prefix(line, "* "@) {
            let s2 = flush_paragraph_spec(s1);
            MdState {
                blocks: s2.blocks.push(BlockValue::Bullet("• "@ + inline_markup_spec(line.skip(2)))),
                ..s2
            }
        } else if trim_seq(line).len() == 0 {
            flush_paragraph_spec(s1)
        } else {
            MdState { para: s1.para.push(line), ..s1 }
        }
    }
}

/// The state after reading the first `n` lines.
pub open spec fn md_run(lines: Seq<Seq<char>>, n: int) -> MdState
    decreases n,
{
    if n <= 0 {
        MdState { blocks: Seq::empty(), para: Seq::empty(), table: Seq::empty(), first_heading: true }
    } else {
        md_step(md_run(lines, n - 1), lines[n - 1])
    }
}

/// The blocks of a manual text.
pub open spec fn markdown_blocks_spec(text: Seq<char>) -> Seq<BlockValue> {
    let lines = lines_seq(text);
    flush_paragraph_spec(flush_table_spec(md_run(lines, lines.len() as int))).blocks
}

/// A line that is a row of a pipe table (not its `---` separator).
pub open spec fn is_table_row(line: Seq<char>) -> bool {
    let ts = trim_start_seq(line);
    ts.len() > 0 && ts[0] == '|' && !contains_seq(line, "---"@)
}

/// Some table block holds `row`.
pub open spec fn in_some_table(blocks: Seq<BlockValue>, row: Seq<Seq<char>>) -> bool {
    exists|k: int| 0 <= k < blocks.len() && (#[trigger] blocks[k] matches BlockValue::Table(rows) && rows.contains(row))
}

/// `b` starts with the blocks of `a`.
spec fn blocks_extend(a: MdState, b: MdState) -> bool {
    a.blocks.len() <= b.blocks.len() && forall|k: int| 0 <= k < a.blocks.len() ==> b.blocks[k] == a.blocks[k]
}

proof fn lemma_flush_paragraph_extends(s: MdState)
    ensures
        blocks_extend(s, flush_paragraph_spec(s)),
        flush_paragraph_spec(s).table == s.table,
{
}

proof fn lemma_flush_table_extends(s: MdState)
    ensures
        blocks_extend(s, flush_table_spec(s)),
        flush_table_spec(s).table.len() == 0 || flush_table_spec(s).table == s.table,
        s.table.len() > 0 ==> flush_table_spec(s).blocks.last() == BlockValue::Table(s.table),
{
}

proof fn lemma_in_table_kept(a: MdState, b: MdState, row: Seq<Seq<char>>)
    requires
        blocks_extend(a, b),
        in_some_table(a.blocks, row),
    ensures
        in_some_table(b.blocks, row),
{
    let k = choose|k: int| 0 <= k < a.blocks.len() && (#[trigger] a.blocks[k] matches BlockValue::Table(rows) && rows.contains(row));
    assert(b.blocks[k] == a.blocks[k]);
}

/// A row held in the pending table ends up in a table block once the table
/// is flushed.
proof fn lemma_flush_table_keeps(s: MdState, row: Seq<Seq<char>>)
    requires
        in_some_table(s.blocks, row) || s.table.contains(row),
    ensures
        in_some_table(flush_table_spec(s).blocks, row),
{
    lemma_flush_table_extends(s);
    if in_some_table(s.blocks, row) {
        lemma_in_table_kept(s, flush_table_spec(s), row);
    } else {
        let b = flush_table_spec(s).blocks;
        assert(b[b.len() - 1] == BlockValue::Table(s.table));
    }
}

/// After reading lines, every table row read so far is in a table block or
/// in the pending table.
proof fn lemma_rows_kept(lines: Seq<Seq<char>>, n: int)
    requires
        0 <= n <= lines.len(),
    ensures
        forall|i: int| 0 <= i < n && #[trigger] is_table_row(lines[i]) ==> in_some_table(md_run(lines, n).blocks, table_cells(lines[i]))
            || md_run(lines, n).table.contains(table_cells(lines[i])),
    decreases n,
{
    if n > 0 {
        lemma_rows_kept(lines, n - 1);
        let s = md_run(lines, n - 1);
        let line = lines[n - 1];
        let t = md_step(s, line);
        assert(t == md_run(lines, n));
        let ts = trim_start_seq(line);
        lemma_flush_paragraph_extends(s);
        lemma_flush_table_extends(s);
        let s1 = flush_paragraph_spec(s);
        let f = flush_table_spec(s);
        assert forall|i: int| 0 <= i < n && #[trigger] is_table_row(lines[i]) implies in_some_table(t.blocks, table_cells(lines[i]))
            || t.table.contains(table_cells(lines[i])) by {
            let row = table_cells(lines[i]);
            if i == n - 1 {
                assert(t.table == s1.table.push(row));
                assert(t.table[t.table.len() - 1] == row);
            } else if ts.len() > 0 && ts[0] == '|' {
                if in_some_table(s.blocks, row) {
                    lemma_in_table_kept(s, s1, row);
                    assert(t.blocks == s1.blocks);
                } else {
                    assert(s.table.contains(row));
                    if !contains_seq(line, "---"@) {
                        let j = choose|j: int| 0 <= j < s.table.len() && s.table[j] == row;
                        assert(t.table[j] == row);
                    }
                }
            } else {
                lemma_flush_table_keeps(s, row);
                lemma_other_line_extends(s, line);
                lemma_in_table_kept(f, t, row);
            }
        }
    }
}

/// A line that is not part of a table keeps the blocks made once the
/// pending table is flushed.
proof fn lemma_other_line_extends(s: MdState, line: Seq<char>)
    requires
        !(trim_start_seq(line).len() > 0 && trim_start_seq(line)[0] == '|'),
    ensures
        blocks_extend(flush_table_spec(s), md_step(s, line)),
{
    let f = flush_table_spec(s);
    let s2 = flush_paragraph_spec(f);
    lemma_flush_paragraph_extends(f);
    let t = md_step(s, line);
    assert(t.blocks == s2.blocks || t.blocks == f.blocks || (t.blocks.len() == s2.blocks.len() + 1
        && t.blocks.subrange(0, s2.blocks.len() as int) == s2.blocks));
    if t.blocks.len() == s2.blocks.len() + 1 && t.blocks.subrange(0, s2.blocks.len() as int) == s2.blocks {
        assert forall|k: int| 0 <= k < f.blocks.len() implies t.blocks[k] == f.blocks[k] by {
            assert(t.blocks.subrange(0, s2.blocks.len() as int)[k] == t.blocks[k]);
        }
    }
}

/// Every row of a pipe table in the manual text (a line starting with `|`
/// that is not a `---` separator) shows, as its cells, in a table block of
/// the result, tables that end the text included.
pub proof fn lemma_table_rows_shown(text: Seq<char>)
    ensures
        forall|i: int|
            0 <= i < lines_seq(text).len() && #[trigger] is_table_row(lines_seq(text)[i]) ==> in_some_table(
                markdown_blocks_spec(text),
                table_cells(lines_seq(text)[i]),
            ),
{
    let lines = lines_seq(text);
    let n = lines.len() as int;
    lemma_rows_kept(lines, n);
    let s = md_run(lines, n);
    let f = flush_table_spec(s);
    lemma_flush_paragraph_extends(f);
    assert forall|i: int| 0 <= i < n && #[trigger] is_table_row(lines[i]) implies in_some_table(
        markdown_blocks_spec(text),
        table_cells(lines[i]),
    ) by {
        lemma_flush_table_keeps(s, table_cells(lines[i]));
        lemma_in_table_kept(f, flush_paragraph_spec(f), table_cells(lines[i]));
    }
}

struct MdExec {
    blocks: Vec<MarkdownBlock>,
    para: Vec<Vec<char>>,
    table: Vec<Vec<String>>,
    first_heading: bool,
}

spec fn exec_state(e: MdExec) -> MdState {
    MdState {
        blocks: block_values(e.blocks@),
        para: views(e.para@),
        table: table_value(e.table@),
        first_heading: e.first_heading,
    }
}

fn flush_paragraph_exec(e: &mut MdExec)
    ensures
        exec_state(*final(e)) == flush_paragraph_spec(exec_state(*old(e))),
{
    if e.para.len() == 0 {
        return;
    }
    let sep = lit(" ");
    let text = join_chars(&e.para, &sep);
    e.para = Vec::new();
    let t = trim_chars(&text);
    if t.len() != 0 {
        let m = inline_markup_chars(&text);
        let ghost before = e.blocks@;
        e.blocks.push(MarkdownBlock::Paragraph(string_of(&m)));
        assert(block_values(e.blocks@) =~= block_values(before).push(BlockValue::Paragraph(m@)));
    }
    assert(views(e.para@) =~= Seq::<Seq<char>>::empty());
}

fn flush_table_exec(e: &mut MdExec)
    ensures
        exec_state(*final(e)) == flush_table_spec(exec_state(*old(e))),
{
    if e.table.len() == 0 {
        return;
    }
    let mut rows: Vec<Vec<String>> = Vec::new();
    std::mem::swap(&mut rows, &mut e.table);
    let ghost before = e.blocks@;
    let ghost tv = table_value(rows@);
    e.blocks.push(MarkdownBlock::Table(rows));
    assert(block_values(e.blocks@) =~= block_values(before).push(BlockValue::Table(tv)));
    assert(table_value(e.table@) =~= Seq::<Seq<Seq<char>>>::empty());
}

spec fn with_block(s: MdState, b: BlockValue) -> MdState {
    MdState { blocks: s.blocks.push(b), ..s }
}

fn push_block(e: &mut MdExec, b: MarkdownBlock)
    ensures
        exec_state(*final(e)) == with_block(exec_state(*old(e)), block_value(b)),
{
    let ghost before = e.blocks@;
    e.blocks.push(b);
    assert(block_values(e.blocks@) =~= block_values(before).push(block_value(b)));
}

fn table_cells_exec(line: &Vec<char>) -> (out: Vec<String>)
    ensures
        crate::text::string_views(out@) == table_cells(line@),
{
    let t = trim_chars(line);
    let inner = trim_matches_chars(&t, '|');
    let pieces = split_char(&inner, '|');
    let mut cells: Vec<Vec<char>> = Vec::new();
    let mut i: usize = 0;
    while i < pieces.len()
        invariant
            i <= pieces.len(),
            views(pieces@) == split_char_seq(trim_matches_seq(trim_seq(line@), '|'), '|'),
            views(cells@) == views(pieces@).take(i as int).map_values(|c: Seq<char>| trim_seq(c)),
        decreases pieces.len() - i,
    {
        let c = trim_chars(&pieces[i]);
        let ghost before = views(cells@);
        cells.push(c);
        assert(views(cells@) =~= before.push(c@));
        assert(views(pieces@).take(i + 1).map_values(|c: Seq<char>| trim_seq(c)) =~= views(pieces@).take(i as int).map_values(|c: Seq<char>| trim_seq(c)).push(trim_seq(views(pieces@)[i as int])));
        i = i + 1;
    }
    assert(views(pieces@).take(pieces.len() as int) =~= views(pieces@));
    strings_of(&cells)
}

fn md_step_exec(e: &mut MdExec, line: &Vec<char>)
    ensures
        exec_state(*final(e)) == md_step(exec_state(*old(e)), line@),
{
    let ts = trim_start_chars(line);
    if ts.len() > 0 && ts[0] == '|' {
        flush_paragraph_exec(e);
        let dashes = lit("---");
        if contains_exec(line, &dashes) {
            return;
        }
        let cells = table_cells_exec(line);
        let ghost before = e.table@;
        e.table.push(cells);
        assert(table_value(e.table@) =~= table_value(before).push(crate::text::string_views(cells@)));
        return;
    }
    flush_table_exec(e);
    let h3 = lit("### ");
    let h2 = lit("## ");
    let h1 = lit("# ");
    let b1 = lit("- ");
    let b2 = lit("* ");
    proof {
        reveal_strlit("### ");
        reveal_strlit("## ");
        reveal_strlit("# ");
        reveal_strlit("- ");
        reveal_strlit("* ");
    }
    if has_prefix_exec(line, &h3) {
        flush_paragraph_exec(e);
        let text = slice_chars(line, 4, line.len());
        assert(text@ =~= line@.skip(4));
        push_block(e, MarkdownBlock::Heading { level: 3, text: string_of(&text), first: false });
        return;
    }
    if has_prefix_exec(line, &h2) {
        flush_paragraph_exec(e);
        let text = slice_chars(line, 3, line.len());
        assert(text@ =~= line@.skip(3));
        let first = e.first_heading;
        push_block(e, MarkdownBlock::Heading { level: 2, text: string_of(&text), first });
        e.first_heading = false;
        return;
    }
    if has_prefix_exec(line, &h1) {
        flush_paragraph_exec(e);
        let text = slice_chars(line, 2, line.len());
        assert(text@ =~= line@.skip(2));
        let first = e.first_heading;
        push_block(e, MarkdownBlock::Heading { level: 1, text: string_of(&text), first });
        e.first_heading = false;
        return;
    }
    if ts.len() > 0 && ts[0] == '[' {
        let trimmed = trim_chars(line);
        let trimmed_s = string_of(&trimmed);
        match parse_link(trimmed_s.as_str()) {
            Some((label, url)) => {
                proof {
                    assert(trim_seq(trim_seq(line@)) == parse_link_input(line@));
                }
                flush_paragraph_exec(e);
                push_block(e, MarkdownBlock::Link { label, url });
                return;
            },
            None => {
                proof {
                    assert(trim_seq(trim_seq(line@)) == parse_link_input(line@));
                }
            },
        }
    }
    if has_prefix_exec(line, &b1) || has_prefix_exec(line, &b2) {
        flush_paragraph_exec(e);
        let rest = slice_chars(line, 2, line.len());
        assert(rest@ =~= line@.skip(2));
        let m = inline_markup_chars(&rest);
        let mut full = lit("• ");
        append_chars(&mut full, &m);
        push_block(e, MarkdownBlock::Bullet(string_of(&full)));
        return;
    }
    let t = trim_chars(line);
    if t.len() == 0 {
        flush_paragraph_exec(e);
        return;
    }
    let ghost before = views(e.para@);
    e.para.push(copy_chars(line));
    assert(views(e.para@) =~= before.push(line@));
}

/// What `parse_link` sees of a line in the manual: the trimmed line.
spec fn parse_link_input(line: Seq<char>) -> Seq<char> {
    trim_seq(trim_seq(line))
}

/// The blocks of the manual, in order.
pub fn markdown_blocks(text: &str) -> (out: Vec<MarkdownBlock>)
    ensures
        block_values(out@) == markdown_blocks_spec(text@),
{
    let lines = lines_of(text);
    let ghost ls = lines_seq(text@);
    let mut e = MdExec { blocks: Vec::new(), para: Vec::new(), table: Vec::new(), first_heading: true };
    assert(exec_state(e) == md_run(ls, 0)) by {
        assert(block_values(e.blocks@) =~= Seq::<BlockValue>::empty());
        assert(views(e.para@) =~= Seq::<Seq<char>>::empty());
        assert(table_value(e.table@) =~= Seq::<Seq<Seq<char>>>::empty());
    }
    let mut i: usize = 0;
    while i < lines.len()
        invariant
            i <= lines.len(),
            views(lines@) == ls,
            exec_state(e) == md_run(ls, i as int),
        decreases lines.len() - i,
    {
        assert(views(lines@)[i as int] == lines@[i as int]@);
        md_step_exec(&mut e, &lines[i]);
        i = i + 1;
    }
    flush_table_exec(&mut e);
    flush_paragraph_exec(&mut e);
    e.blocks
}

} // verus!
