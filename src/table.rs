//! Aligned text tables with optional named groups of columns.
use vstd::prelude::*;
use crate::dedup::texts;
use crate::width::{display_width, width_of};

verus! {

struct Column {
    header: String,
    data: Vec<String>,
}

// A closed group: `count` columns, ending where the next group starts, finalized under `name`.
struct Group {
    name: Option<String>,
    count: usize,
}

/// What a table holds: each column's header and entries, the groups closed so far (name and
/// number of columns), and the group still open, which takes the columns from `open_start` on.
pub struct TableModel {
    pub headers: Seq<Seq<char>>,
    pub data: Seq<Seq<Seq<char>>>,
    pub groups: Seq<(Option<Seq<char>>, nat)>,
    pub open_start: nat,
    pub open_name: Option<Seq<char>>,
}

pub open spec fn name_text(name: Option<String>) -> Option<Seq<char>> {
    match name {
        Some(s) => Some(s@),
        None => None,
    }
}

/// The number of columns that the groups take together.
pub open spec fn group_total(groups: Seq<(Option<Seq<char>>, nat)>) -> nat
    decreases groups.len(),
{
    if groups.len() == 0 {
        0
    } else {
        group_total(groups.drop_last()) + groups.last().1
    }
}

impl TableModel {
    pub open spec fn wf(self) -> bool {
        &&& self.headers.len() == self.data.len()
        &&& group_total(self.groups) == self.open_start
        &&& self.open_start <= self.headers.len()
        &&& forall|g: int| 0 <= g < self.groups.len() ==> #[trigger] self.groups[g].1 > 0
    }

    /// Every group, with the open one last where it has columns.
    pub open spec fn all_groups(self) -> Seq<(Option<Seq<char>>, nat)> {
        let trailing = self.headers.len() - self.open_start;
        if trailing > 0 {
            self.groups.push((self.open_name, trailing as nat))
        } else {
            self.groups
        }
    }
}

/// A builder for aligned tabular output with optional column grouping.
///
/// Columns are added with `column()`, optionally organized under named groups using
/// `group()`; `render()` lays the table out as lines of text.
pub struct Table {
    columns: Vec<Column>,
    groups: Vec<Group>,
    // Columns from current_group_start onwards belong to current_group_name (which may be
    // None for ungrouped columns).
    current_group_start: usize,
    current_group_name: Option<String>,
}

impl View for Table {
    type V = TableModel;

    closed spec fn view(&self) -> TableModel {
        TableModel {
            headers: self.columns@.map_values(|c: Column| c.header@),
            data: self.columns@.map_values(|c: Column| texts(c.data@)),
            groups: self.groups@.map_values(|g: Group| (name_text(g.name), g.count as nat)),
            open_start: self.current_group_start as nat,
            open_name: name_text(self.current_group_name),
        }
    }
}

impl Table {
    /// An empty table.
    pub fn new() -> (r: Self)
        ensures
            r@.wf(),
            r@.headers.len() == 0,
            r@.groups.len() == 0,
            r@.open_name is None,
    {
        let r = Table {
            columns: Vec::new(),
            groups: Vec::new(),
            current_group_start: 0,
            current_group_name: None,
        };
        proof {
            assert(r@.headers =~= Seq::<Seq<char>>::empty());
            assert(r@.groups =~= Seq::<(Option<Seq<char>>, nat)>::empty());
        }
        r
    }

    /// The table with one more column, of the given header and entries, in the open group.
    pub fn column(self, header: String, data: Vec<String>) -> (r: Self)
        requires
            self@.wf(),
        ensures
            r@.wf(),
            r@.headers == self@.headers.push(header@),
            r@.data == self@.data.push(texts(data@)),
            r@.groups == self@.groups,
            r@.open_start == self@.open_start,
            r@.open_name == self@.open_name,
    {
        let mut t = self;
        let ghost before = t@;
        t.columns.push(Column { header, data });
        proof {
            assert(t@.headers =~= before.headers.push(header@));
            assert(t@.data =~= before.data.push(texts(data@)));
            assert(t@.groups =~= before.groups);
        }
        t
    }

    /// Closes the open group, if it has columns, and opens one named `name`: the columns added
    /// next belong to it.
    pub fn group(self, name: String) -> (r: Self)
        requires
            self@.wf(),
        ensures
            r@.wf(),
            r@.headers == self@.headers,
            r@.data == self@.data,
            r@.groups == (if self@.headers.len() > self@.open_start {
                self@.groups.push((self@.open_name, (self@.headers.len() - self@.open_start) as nat))
            } else {
                self@.groups
            }),
            r@.open_start == self@.headers.len(),
            r@.open_name == Some(name@),
    {
        let mut t = self;
        let ghost before = t@;
        let count = t.columns.len() - t.current_group_start;
        if count > 0 {
            let open = t.current_group_name.take();
            t.groups.push(Group { name: open, count });
        }
        t.current_group_start = t.columns.len();
        t.current_group_name = Some(name);
        proof {
            assert(t@.headers =~= before.headers);
            assert(t@.data =~= before.data);
            if count > 0 {
                assert(t@.groups =~= before.groups.push((before.open_name, count as nat)));
                assert(t@.groups.drop_last() =~= before.groups);
            } else {
                assert(t@.groups =~= before.groups);
            }
        }
        t
    }

    /// Every group as its name and number of columns, the open group last where it has any.
    pub fn all_groups(&self) -> (r: Vec<(Option<String>, usize)>)
        requires
            self@.wf(),
        ensures
            r@.map_values(|g: (Option<String>, usize)| (name_text(g.0), g.1 as nat))
                == self@.all_groups(),
    {
        let mut r: Vec<(Option<String>, usize)> = Vec::new();
        let mut i: usize = 0;
        while i < self.groups.len()
            invariant
                i <= self.groups@.len(),
                r@.map_values(|g: (Option<String>, usize)| (name_text(g.0), g.1 as nat))
                    =~= self@.groups.subrange(0, i as int),
            decreases self.groups@.len() - i,
        {
            let g = &self.groups[i];
            let name = match &g.name {
                Some(s) => Some(s.clone()),
                None => None,
            };
            let ghost before = r@;
            r.push((name, g.count));
            proof {
                assert(self@.groups[i as int] == (name_text(g.name), g.count as nat));
                assert(name_text(name) == name_text(g.name));
                assert(r@ == before.push((name, g.count)));
                assert(self@.groups.subrange(0, i + 1) =~= self@.groups.subrange(0, i as int).push(
                    self@.groups[i as int],
                ));
            }
            i = i + 1;
        }
        let trailing = self.columns.len() - self.current_group_start;
        if trailing > 0 {
            let name = match &self.current_group_name {
                Some(s) => Some(s.clone()),
                None => None,
            };
            r.push((name, trailing));
        }
        proof {
            assert(self@.groups.subrange(0, i as int) =~= self@.groups);
            assert(r@.map_values(|g: (Option<String>, usize)| (name_text(g.0), g.1 as nat))
                =~= self@.all_groups());
        }
        r
    }
}

proof fn lemma_texts_push(v: Seq<String>, s: String)
    ensures
        texts(v.push(s)) == texts(v).push(s@),
{
    assert(texts(v.push(s)) =~= texts(v).push(s@));
}

/// `n` spaces.
pub open spec fn spaces(n: nat) -> Seq<char> {
    Seq::new(n, |i: int| ' ')
}

/// `s` followed by spaces up to `width` columns.
pub open spec fn pad_right(s: Seq<char>, width: int) -> Seq<char> {
    let current = display_width(s);
    if current >= width {
        s
    } else {
        s + spaces((width - current) as nat)
    }
}

/// `s` preceded by spaces up to `width` columns.
pub open spec fn pad_left(s: Seq<char>, width: int) -> Seq<char> {
    let current = display_width(s);
    if current >= width {
        s
    } else {
        spaces((width - current) as nat) + s
    }
}

fn push_spaces(s: &mut String, n: usize)
    ensures
        final(s)@ == old(s)@ + spaces(n as nat),
{
    let mut i: usize = 0;
    while i < n
        invariant
            i <= n,
            s@ == old(s)@ + spaces(i as nat),
        decreases n - i,
    {
        s.append(" ");
        proof {
            reveal_strlit(" ");
            assert(s@ =~= old(s)@ + spaces((i + 1) as nat));
        }
        i = i + 1;
    }
}

/// `s`, taking `current` columns, followed by spaces up to `width` columns.
pub fn fill_right(s: &str, current: usize, width: usize) -> (r: String)
    ensures
        r@ == (if current >= width {
            s@
        } else {
            s@ + spaces((width - current) as nat)
        }),
{
    let mut r = String::from_str(s);
    if current < width {
        push_spaces(&mut r, width - current);
    }
    r
}

/// `s`, taking `current` columns, preceded by spaces up to `width` columns.
pub fn fill_left(s: &str, current: usize, width: usize) -> (r: String)
    ensures
        r@ == (if current >= width {
            s@
        } else {
            spaces((width - current) as nat) + s@
        }),
{
    if current < width {
        let mut r = String::new();
        push_spaces(&mut r, width - current);
        r.append(s);
        r
    } else {
        String::from_str(s)
    }
}

/// Left-justifies `s` to `width` terminal columns.
pub fn ljust(s: &str, width: usize) -> (r: String)
    ensures
        r@ == pad_right(s@, width as int),
{
    fill_right(s, width_of(s), width)
}

/// Right-justifies `s` to `width` terminal columns.
pub fn rjust(s: &str, width: usize) -> (r: String)
    ensures
        r@ == pad_left(s@, width as int),
{
    fill_left(s, width_of(s), width)
}

/// ASCII whitespace as `u8::is_ascii_whitespace` defines it.
pub open spec fn is_ascii_space(c: char) -> bool {
    c == ' ' || c == '\t' || c == '\n' || c == '\x0C' || c == '\r'
}

/// `s` without its trailing ASCII whitespace.
pub open spec fn trim_end(s: Seq<char>) -> Seq<char>
    decreases s.len(),
{
    if s.len() > 0 && is_ascii_space(s.last()) {
        trim_end(s.drop_last())
    } else {
        s
    }
}

/// The parts with `sep` between each two.
pub open spec fn join_with(parts: Seq<Seq<char>>, sep: Seq<char>) -> Seq<char>
    decreases parts.len(),
{
    if parts.len() == 0 {
        Seq::empty()
    } else if parts.len() == 1 {
        parts[0]
    } else {
        join_with(parts.drop_last(), sep) + sep + parts.last()
    }
}

pub open spec fn max_int(a: int, b: int) -> int {
    if a >= b {
        a
    } else {
        b
    }
}

/// The widest of some texts, in columns; 0 for none.
pub open spec fn max_width(items: Seq<Seq<char>>) -> int
    decreases items.len(),
{
    if items.len() == 0 {
        0
    } else {
        max_int(max_width(items.drop_last()), display_width(items.last()) as int)
    }
}

/// The sum of `ws[from..to]`.
pub open spec fn sum_from(ws: Seq<int>, from: int, to: int) -> int
    decreases to - from,
{
    if to <= from {
        0
    } else {
        sum_from(ws, from, to - 1) + ws[to - 1]
    }
}

pub open spec fn clamp_usize(x: int) -> int {
    if x > usize::MAX {
        usize::MAX as int
    } else {
        x
    }
}

pub open spec fn name_or_empty(name: Option<Seq<char>>) -> Seq<char> {
    match name {
        Some(n) => n,
        None => Seq::empty(),
    }
}

impl TableModel {
    /// Each column as wide as its header and its widest entry.
    pub open spec fn widths(self) -> Seq<int> {
        Seq::new(
            self.headers.len(),
            |c: int| max_int(display_width(self.headers[c]) as int, max_width(self.data[c])),
        )
    }

    /// Whether some group has a name.
    pub open spec fn has_named_groups(self) -> bool {
        exists|g: int| 0 <= g < self.all_groups().len() && (#[trigger] self.all_groups()[g]).0 is Some
    }

    /// The first column of group `g`.
    pub open spec fn group_start(self, g: int) -> int {
        group_total(self.all_groups().subrange(0, g)) as int
    }

    /// The width that group `g` spans: its columns and the spaces between them, or its name
    /// where that is wider and some group is named.
    pub open spec fn span(self, g: int) -> int {
        let start = self.group_start(g);
        let count = self.all_groups()[g].1 as int;
        let natural = clamp_usize(sum_from(self.widths(), start, start + count) + count - 1);
        if self.has_named_groups() {
            max_int(natural, display_width(name_or_empty(self.all_groups()[g].0)) as int)
        } else {
            natural
        }
    }

    /// Column `c` in the header line (`row` is `None`) or in data row `row`: a header is
    /// left-justified, an entry right-justified, and `-` stands in where a column is short.
    pub open spec fn cell(self, c: int, row: Option<int>) -> Seq<char> {
        match row {
            None => pad_right(self.headers[c], self.widths()[c]),
            Some(r) => pad_left(
                if r < self.data[c].len() {
                    self.data[c][r]
                } else {
                    "-"@
                },
                self.widths()[c],
            ),
        }
    }

    /// The cells of group `g`, joined and padded to the group's span.
    pub open spec fn block(self, g: int, row: Option<int>) -> Seq<char> {
        let start = self.group_start(g);
        pad_right(
            join_with(Seq::new(self.all_groups()[g].1, |i: int| self.cell(start + i, row)), " "@),
            self.span(g),
        )
    }

    /// The header line (`row` is `None`) or data row `row`.
    pub open spec fn line(self, row: Option<int>) -> Seq<char> {
        trim_end(join_with(Seq::new(self.all_groups().len(), |g: int| self.block(g, row)), " "@))
    }

    /// The line of group names.
    pub open spec fn title_line(self) -> Seq<char> {
        trim_end(
            join_with(
                Seq::new(
                    self.all_groups().len(),
                    |g: int| pad_right(name_or_empty(self.all_groups()[g].0), self.span(g)),
                ),
                " "@,
            ),
        )
    }

    /// The table as lines: group names where some group is named, the headers, then one line
    /// per entry of the first column. No lines for a table without columns.
    pub open spec fn rendered(self) -> Seq<Seq<char>> {
        if self.headers.len() == 0 {
            Seq::empty()
        } else {
            let titles = if self.has_named_groups() {
                seq![self.title_line()]
            } else {
                Seq::empty()
            };
            titles + seq![self.line(None)] + Seq::new(
                self.data[0].len(),
                |row: int| self.line(Some(row)),
            )
        }
    }
}

/// The parts with `sep` between each two.
pub fn join_strings(parts: &Vec<String>, sep: &str) -> (r: String)
    ensures
        r@ == join_with(texts(parts@), sep@),
{
    let mut r = String::new();
    let mut i: usize = 0;
    while i < parts.len()
        invariant
            i <= parts@.len(),
            r@ == join_with(texts(parts@.subrange(0, i as int)), sep@),
        decreases parts@.len() - i,
    {
        proof {
            let pre = texts(parts@.subrange(0, i + 1));
            assert(pre.drop_last() =~= texts(parts@.subrange(0, i as int)));
            assert(pre.last() == parts@[i as int]@);
            if i == 0 {
                assert(texts(parts@.subrange(0, 0)) =~= Seq::<Seq<char>>::empty());
            }
        }
        if i > 0 {
            r.append(sep);
        }
        r.append(parts[i].as_str());
        proof {
            let pre = texts(parts@.subrange(0, i + 1));
            if i == 0 {
                assert(r@ =~= pre[0]);
            }
        }
        i = i + 1;
    }
    proof {
        assert(parts@.subrange(0, i as int) =~= parts@);
    }
    r
}

/// `s` without its trailing ASCII whitespace.
pub fn trim_ascii_end(s: &str) -> (r: String)
    ensures
        r@ == trim_end(s@),
{
    let n = s.unicode_len();
    let mut k: usize = n;
    assert(s@.subrange(0, n as int) =~= s@);
    while k > 0
        invariant
            k <= n == s@.len(),
            trim_end(s@) == trim_end(s@.subrange(0, k as int)),
        ensures
            k <= n,
            trim_end(s@) == trim_end(s@.subrange(0, k as int)),
            k == 0 || !is_ascii_space(s@[k - 1]),
        decreases k,
    {
        let c = s.get_char(k - 1);
        if !(c == ' ' || c == '\t' || c == '\n' || c == '\x0C' || c == '\r') {
            break;
        }
        proof {
            assert(s@.subrange(0, k as int).drop_last() =~= s@.subrange(0, k - 1));
        }
        k = k - 1;
    }
    proof {
        if k == 0 {
            assert(s@.subrange(0, 0).len() == 0);
        }
    }
    String::from_str(s.substring_char(0, k))
}

pub open spec fn row_index(row: Option<usize>) -> Option<int> {
    match row {
        Some(r) => Some(r as int),
        None => None,
    }
}

/// The groups before `k` take no more columns than all of them.
proof fn lemma_group_total_prefix(groups: Seq<(Option<Seq<char>>, nat)>, k: int)
    requires
        0 <= k <= groups.len(),
    ensures
        group_total(groups.subrange(0, k)) <= group_total(groups),
        k < groups.len() ==> group_total(groups.subrange(0, k + 1)) == group_total(
            groups.subrange(0, k),
        ) + groups[k].1,
    decreases groups.len() - k,
{
    if k < groups.len() {
        assert(groups.subrange(0, k + 1).drop_last() =~= groups.subrange(0, k));
        lemma_group_total_prefix(groups, k + 1);
    } else {
        assert(groups.subrange(0, k) =~= groups);
    }
}

/// The groups of a well-formed table, the open one included, take exactly its columns.
proof fn lemma_all_groups_total(m: TableModel)
    requires
        m.wf(),
    ensures
        group_total(m.all_groups()) == m.headers.len(),
        forall|g: int| 0 <= g < m.all_groups().len() ==> #[trigger] m.all_groups()[g].1 > 0,
{
    let trailing = m.headers.len() - m.open_start;
    if trailing > 0 {
        assert(m.all_groups().drop_last() =~= m.groups);
    }
}

impl Table {
    /// Each column's width: that of its header or of its widest entry.
    fn column_widths(&self) -> (r: Vec<usize>)
        requires
            self@.wf(),
        ensures
            r@.len() == self@.headers.len(),
            forall|c: int| 0 <= c < r@.len() ==> #[trigger] r@[c] as int == self@.widths()[c],
    {
        let mut r: Vec<usize> = Vec::new();
        let mut c: usize = 0;
        while c < self.columns.len()
            invariant
                self@.wf(),
                c <= self.columns@.len(),
                r@.len() == c,
                forall|k: int| 0 <= k < c ==> #[trigger] r@[k] as int == self@.widths()[k],
            decreases self.columns@.len() - c,
        {
            let col = &self.columns[c];
            let ghost items = texts(col.data@);
            let mut w = width_of(col.header.as_str());
            let mut i: usize = 0;
            while i < col.data.len()
                invariant
                    i <= col.data@.len(),
                    items == texts(col.data@),
                    w as int == max_int(
                        display_width(col.header@) as int,
                        max_width(items.subrange(0, i as int)),
                    ),
                decreases col.data@.len() - i,
            {
                let d = width_of(col.data[i].as_str());
                proof {
                    assert(items.subrange(0, i + 1).drop_last() =~= items.subrange(0, i as int));
                }
                if d > w {
                    w = d;
                }
                i = i + 1;
            }
            proof {
                assert(items.subrange(0, i as int) =~= items);
                assert(self@.headers[c as int] == col.header@);
                assert(self@.data[c as int] == items);
            }
            r.push(w);
            c = c + 1;
        }
        r
    }

    /// Whether some group is named, and each group's first column and span.
    fn layout(&self, groups: &Vec<(Option<String>, usize)>, widths: &Vec<usize>) -> (r: (
        bool,
        Vec<usize>,
        Vec<usize>,
    ))
        requires
            self@.wf(),
            groups@.map_values(|g: (Option<String>, usize)| (name_text(g.0), g.1 as nat))
                == self@.all_groups(),
            widths@.len() == self@.headers.len(),
            forall|c: int| 0 <= c < widths@.len() ==> #[trigger] widths@[c] as int == self@.widths()[c],
        ensures
            r.0 == self@.has_named_groups(),
            r.1@.len() == groups@.len(),
            r.2@.len() == groups@.len(),
            forall|g: int| 0 <= g < groups@.len() ==> #[trigger] r.1@[g] as int == self@.group_start(g),
            forall|g: int|
                0 <= g < groups@.len() ==> self@.group_start(g) + (#[trigger] groups@[g]).1
                    <= self@.headers.len(),
            forall|g: int| 0 <= g < groups@.len() ==> #[trigger] r.2@[g] as int == self@.span(g),
    {
        let ghost all = self@.all_groups();
        let n = groups.len();
        assert(forall|g: int| 0 <= g < n ==> #[trigger] all[g] == (name_text(groups@[g].0), groups@[g].1 as nat));
        let mut named = false;
        let mut g: usize = 0;
        while g < n
            invariant
                n == groups@.len() == all.len(),
                g <= n,
                forall|k: int| 0 <= k < n ==> #[trigger] all[k] == (name_text(groups@[k].0), groups@[k].1 as nat),
                named == exists|k: int| 0 <= k < g && (#[trigger] all[k]).0 is Some,
            decreases n - g,
        {
            if groups[g].0.is_some() {
                named = true;
            }
            proof {
                if groups@[g as int].0 is Some {
                    assert(all[g as int].0 is Some);
                }
            }
            g = g + 1;
        }
        proof {
            lemma_all_groups_total(self@);
            assert forall|k: int| 0 <= k < n implies self@.group_start(k) + (#[trigger] groups@[k]).1
                <= self@.headers.len() by {
                lemma_group_total_prefix(all, k);
                lemma_group_total_prefix(all, k + 1);
                assert(all[k].1 == groups@[k].1);
            }
        }
        let mut starts: Vec<usize> = Vec::new();
        let mut spans: Vec<usize> = Vec::new();
        let mut start: usize = 0;
        let mut g: usize = 0;
        while g < n
            invariant
                self@.wf(),
                n == groups@.len() == all.len(),
                all == self@.all_groups(),
                g <= n,
                forall|k: int| 0 <= k < n ==> #[trigger] all[k] == (name_text(groups@[k].0), groups@[k].1 as nat),
                named == self@.has_named_groups(),
                group_total(all) == self@.headers.len(),
                start as int == group_total(all.subrange(0, g as int)),
                widths@.len() == self@.headers.len(),
                forall|c: int| 0 <= c < widths@.len() ==> #[trigger] widths@[c] as int == self@.widths()[c],
                starts@.len() == g,
                spans@.len() == g,
                forall|k: int| 0 <= k < g ==> #[trigger] starts@[k] as int == self@.group_start(k),
                forall|k: int|
                    0 <= k < n ==> self@.group_start(k) + (#[trigger] groups@[k]).1 <= self@.headers.len(),
                forall|k: int| 0 <= k < g ==> #[trigger] spans@[k] as int == self@.span(k),
            decreases n - g,
        {
            let count = groups[g].1;
            let ncols = self.columns.len();
            proof {
                lemma_group_total_prefix(all, g as int);
                lemma_group_total_prefix(all, g + 1);
                lemma_all_groups_total(self@);
                assert(all[g as int].1 == count as nat);
                assert(count > 0);
                assert(self@.headers.len() == ncols);
                assert(start + count <= self@.headers.len());
            }
            let end = start + count;
            let mut acc: usize = 0;
            let mut c: usize = start;
            while c < end
                invariant
                    end == start + count,
                    start <= c <= end <= widths@.len(),
                    widths@.len() == self@.headers.len(),
                    forall|k: int| 0 <= k < widths@.len() ==> #[trigger] widths@[k] as int == self@.widths()[k],
                    acc as int == clamp_usize(sum_from(self@.widths(), start as int, c as int)),
                decreases end - c,
            {
                proof {
                    assert(self@.widths()[c as int] >= 0);
                }
                acc = acc.saturating_add(widths[c]);
                c = c + 1;
            }
            let natural = acc.saturating_add(count - 1);
            let span = if named {
                let name_width = match &groups[g].0 {
                    Some(name) => width_of(name.as_str()),
                    None => width_of(""),
                };
                proof {
                    reveal_strlit("");
                    assert(name_or_empty(all[g as int].0) == (match &groups@[g as int].0 {
                        Some(name) => name@,
                        None => ""@,
                    }));
                }
                if natural >= name_width {
                    natural
                } else {
                    name_width
                }
            } else {
                natural
            };
            let ghost old_starts = starts@;
            starts.push(start);
            spans.push(span);
            proof {
                assert(starts@[g as int] as int == self@.group_start(g as int));
                assert(self@.group_start(g as int) + groups@[g as int].1 <= self@.headers.len());
                assert forall|k: int| 0 <= k < g + 1 implies #[trigger] starts@[k] as int
                    == self@.group_start(k) by {
                    if k < g {
                        assert(starts@[k] == old_starts[k]);
                    }
                }
                assert(all.subrange(0, g as int) == self@.all_groups().subrange(0, g as int));
            }
            start = start + count;
            g = g + 1;
        }
        (named, starts, spans)
    }
}

impl Table {
    /// The header line (`row` is `None`) or data row `row`, laid out by `layout`.
    fn line(
        &self,
        groups: &Vec<(Option<String>, usize)>,
        widths: &Vec<usize>,
        starts: &Vec<usize>,
        spans: &Vec<usize>,
        row: Option<usize>,
    ) -> (r: String)
        requires
            self@.wf(),
            groups@.map_values(|g: (Option<String>, usize)| (name_text(g.0), g.1 as nat))
                == self@.all_groups(),
            widths@.len() == self@.headers.len(),
            forall|c: int| 0 <= c < widths@.len() ==> #[trigger] widths@[c] as int == self@.widths()[c],
            starts@.len() == groups@.len(),
            spans@.len() == groups@.len(),
            forall|g: int| 0 <= g < groups@.len() ==> #[trigger] starts@[g] as int == self@.group_start(g),
            forall|g: int|
                0 <= g < groups@.len() ==> self@.group_start(g) + (#[trigger] groups@[g]).1
                    <= self@.headers.len(),
            forall|g: int| 0 <= g < groups@.len() ==> #[trigger] spans@[g] as int == self@.span(g),
        ensures
            r@ == self@.line(row_index(row)),
    {
        let ghost m = self@;
        let ghost ri = row_index(row);
        let ghost all = m.all_groups();
        let n = groups.len();
        assert(forall|g: int| 0 <= g < n ==> #[trigger] all[g] == (name_text(groups@[g].0), groups@[g].1 as nat));
        let mut blocks: Vec<String> = Vec::new();
        let mut g: usize = 0;
        while g < n
            invariant
                m == self@,
                ri == row_index(row),
                all == m.all_groups(),
                n == groups@.len() == all.len(),
                g <= n,
                forall|k: int| 0 <= k < n ==> #[trigger] all[k] == (name_text(groups@[k].0), groups@[k].1 as nat),
                widths@.len() == m.headers.len() == self.columns@.len(),
                forall|c: int| 0 <= c < widths@.len() ==> #[trigger] widths@[c] as int == m.widths()[c],
                starts@.len() == n,
                spans@.len() == n,
                forall|k: int| 0 <= k < n ==> #[trigger] starts@[k] as int == m.group_start(k),
                forall|k: int|
                    0 <= k < n ==> m.group_start(k) + (#[trigger] groups@[k]).1 <= m.headers.len(),
                forall|k: int| 0 <= k < n ==> #[trigger] spans@[k] as int == m.span(k),
                texts(blocks@) =~= Seq::new(g as nat, |k: int| m.block(k, ri)),
            decreases n - g,
        {
            let start = starts[g];
            let count = groups[g].1;
            let ncols = self.columns.len();
            assert(start + count <= m.headers.len());
            assert(m.headers.len() == ncols);
            let mut cells: Vec<String> = Vec::new();
            let mut i: usize = 0;
            while i < count
                invariant
                    m == self@,
                    ri == row_index(row),
                    widths@.len() == m.headers.len() == self.columns@.len(),
                    forall|c: int| 0 <= c < widths@.len() ==> #[trigger] widths@[c] as int == m.widths()[c],
                    start + count <= m.headers.len(),
                    m.headers.len() == self.columns@.len(),
                    ncols == self.columns@.len(),
                    i <= count,
                    texts(cells@) =~= Seq::new(i as nat, |k: int| m.cell(start + k, ri)),
                decreases count - i,
            {
                let c = start + i;
                let col = &self.columns[c];
                proof {
                    assert(m.headers[c as int] == col.header@);
                    assert(m.data[c as int] == texts(col.data@));
                }
                let cell = match row {
                    None => ljust(col.header.as_str(), widths[c]),
                    Some(r) => if r < col.data.len() {
                        rjust(col.data[r].as_str(), widths[c])
                    } else {
                        proof {
                            reveal_strlit("-");
                        }
                        rjust("-", widths[c])
                    },
                };
                let ghost before = cells@;
                cells.push(cell);
                proof {
                    lemma_texts_push(before, cell);
                    assert(cell@ == m.cell(start + i, ri));
                }
                i = i + 1;
            }
            let joined = join_strings(&cells, " ");
            let block = ljust(joined.as_str(), spans[g]);
            proof {
                assert(all[g as int].1 == count as nat);
                assert(m.block(g as int, ri) == block@);
            }
            let ghost before = blocks@;
            blocks.push(block);
            proof {
                lemma_texts_push(before, block);
            }
            g = g + 1;
        }
        let all_blocks = join_strings(&blocks, " ");
        trim_ascii_end(all_blocks.as_str())
    }

    /// The line of group names, laid out by `layout`.
    fn title_line(&self, groups: &Vec<(Option<String>, usize)>, spans: &Vec<usize>) -> (r: String)
        requires
            self@.wf(),
            groups@.map_values(|g: (Option<String>, usize)| (name_text(g.0), g.1 as nat))
                == self@.all_groups(),
            spans@.len() == groups@.len(),
            forall|g: int| 0 <= g < groups@.len() ==> #[trigger] spans@[g] as int == self@.span(g),
        ensures
            r@ == self@.title_line(),
    {
        let ghost m = self@;
        let ghost all = m.all_groups();
        let n = groups.len();
        assert(forall|g: int| 0 <= g < n ==> #[trigger] all[g] == (name_text(groups@[g].0), groups@[g].1 as nat));
        let mut parts: Vec<String> = Vec::new();
        let mut g: usize = 0;
        while g < n
            invariant
                m == self@,
                all == m.all_groups(),
                n == groups@.len() == all.len(),
                g <= n,
                forall|k: int| 0 <= k < n ==> #[trigger] all[k] == (name_text(groups@[k].0), groups@[k].1 as nat),
                spans@.len() == n,
                forall|k: int| 0 <= k < n ==> #[trigger] spans@[k] as int == m.span(k),
                texts(parts@) =~= Seq::new(
                    g as nat,
                    |k: int| pad_right(name_or_empty(all[k].0), m.span(k)),
                ),
            decreases n - g,
        {
            let part = match &groups[g].0 {
                Some(name) => ljust(name.as_str(), spans[g]),
                None => {
                    proof {
                        reveal_strlit("");
                    }
                    ljust("", spans[g])
                },
            };
            let ghost before = parts@;
            parts.push(part);
            proof {
                lemma_texts_push(before, part);
                assert(name_or_empty(all[g as int].0) == (match &groups@[g as int].0 {
                    Some(name) => name@,
                    None => ""@,
                }));
            }
            g = g + 1;
        }
        let joined = join_strings(&parts, " ");
        trim_ascii_end(joined.as_str())
    }

    /// Lays the table out as lines of text: group names where some group is named, then the
    /// headers, then one line per entry of the first column. Each column is as wide as its
    /// widest text; headers are left-justified and entries right-justified; a group whose name is
    /// wider than its columns is padded after them. Trailing whitespace is trimmed.
    pub fn render(&self) -> (r: Vec<String>)
        requires
            self@.wf(),
        ensures
            texts(r@) == self@.rendered(),
    {
        let mut lines: Vec<String> = Vec::new();
        if self.columns.len() == 0 {
            proof {
                assert(texts(lines@) =~= self@.rendered());
            }
            return lines;
        }
        let groups = self.all_groups();
        let widths = self.column_widths();
        let (named, starts, spans) = self.layout(&groups, &widths);
        if named {
            let t = self.title_line(&groups, &spans);
            lines.push(t);
            proof {
                lemma_texts_push(Seq::empty(), t);
            }
        }
        let ghost titles = texts(lines@);
        let h = self.line(&groups, &widths, &starts, &spans, None);
        let ghost before = lines@;
        lines.push(h);
        proof {
            lemma_texts_push(before, h);
        }
        let ghost heads = texts(lines@);
        assert(self@.data[0] == texts(self.columns@[0].data@));
        assert(self@.data[0].len() == self.columns@[0].data@.len());
        let num_rows = self.columns[0].data.len();
        let mut row: usize = 0;
        while row < num_rows
            invariant
                self@.wf(),
                num_rows == self@.data[0].len(),
                row <= num_rows,
                groups@.map_values(|g: (Option<String>, usize)| (name_text(g.0), g.1 as nat))
                    == self@.all_groups(),
                widths@.len() == self@.headers.len(),
                forall|c: int| 0 <= c < widths@.len() ==> #[trigger] widths@[c] as int == self@.widths()[c],
                starts@.len() == groups@.len(),
                spans@.len() == groups@.len(),
                forall|g: int| 0 <= g < groups@.len() ==> #[trigger] starts@[g] as int == self@.group_start(g),
                forall|g: int|
                    0 <= g < groups@.len() ==> self@.group_start(g) + (#[trigger] groups@[g]).1
                        <= self@.headers.len(),
                forall|g: int| 0 <= g < groups@.len() ==> #[trigger] spans@[g] as int == self@.span(g),
                texts(lines@) =~= heads + Seq::new(row as nat, |k: int| self@.line(Some(k))),
            decreases num_rows - row,
        {
            let l = self.line(&groups, &widths, &starts, &spans, Some(row));
            let ghost before = lines@;
            lines.push(l);
            proof {
                lemma_texts_push(before, l);
            }
            row = row + 1;
        }
        proof {
            let m = self@;
            let t: Seq<Seq<char>> = if m.has_named_groups() {
                seq![m.title_line()]
            } else {
                Seq::empty()
            };
            assert(titles =~= t);
            assert(heads =~= t + seq![m.line(None)]);
            assert(texts(lines@) =~= m.rendered());
        }
        lines
    }
}

} // verus!
