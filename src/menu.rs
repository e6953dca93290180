//! Menu replies: lines of the form `<type><label>\t<selector>\t<host>\t<port>`,
//! ended by a line holding a single `.`.
use vstd::prelude::*;
use crate::item::{GopherItem, item_of};
use crate::text::{chars_of, string_of};
use crate::url::{AddressView, GopherURL, port_value};

verus! {

/// The mathematical value of a menu entry.
pub struct EntryView {
    pub kind: GopherItem,
    pub label: Seq<char>,
    pub url: Option<AddressView>,
}

/// One line of a menu. Informational lines carry no address; every other entry
/// carries the address built from the line's selector, host and port.
#[derive(Debug)]
pub struct DirEntry {
    pub item_type: GopherItem,
    pub label: String,
    pub url: Option<GopherURL>,
}

/// The entries of a menu, in the order the server sent them.
#[derive(Debug)]
pub struct Menu {
    pub items: Vec<DirEntry>,
}

impl View for DirEntry {
    type V = EntryView;

    open spec fn view(&self) -> EntryView {
        EntryView {
            kind: self.item_type,
            label: self.label@,
            url: match self.url {
                Some(u) => Some(u@),
                None => None,
            },
        }
    }
}

impl View for Menu {
    type V = Seq<EntryView>;

    open spec fn view(&self) -> Seq<EntryView> {
        self.items@.map_values(|e: DirEntry| e@)
    }
}

/// The entry that the fields of a menu line describe.
pub open spec fn entry_view(
    kind: GopherItem,
    label: Seq<char>,
    selector: Seq<char>,
    host: Seq<char>,
    port: Seq<char>,
) -> EntryView {
    if kind == GopherItem::Info {
        EntryView { kind, label, url: None }
    } else {
        EntryView {
            kind,
            label,
            url: Some(AddressView { host, port: port_value(port), kind, selector }),
        }
    }
}

/// What a line that is not an entry reads as; menus leave it out.
pub open spec fn invalid_entry() -> EntryView {
    EntryView { kind: GopherItem::Unknown, label: Seq::empty(), url: None }
}

/// The first position at or after `i` that holds a tab, or the length of `s`.
pub open spec fn scan_tab(s: Seq<char>, i: int) -> int
    decreases s.len() - i,
{
    if i >= s.len() || s[i] == '\t' {
        i
    } else {
        scan_tab(s, i + 1)
    }
}

pub open spec fn ends_port(c: char) -> bool {
    c == '\t' || c == '\r' || c == '\n'
}

/// The first position at or after `i` that holds a tab or a line end, or the
/// length of `s`.
pub open spec fn scan_port_end(s: Seq<char>, i: int) -> int
    decreases s.len() - i,
{
    if i >= s.len() || ends_port(s[i]) {
        i
    } else {
        scan_port_end(s, i + 1)
    }
}

/// The entry that a line denotes. A line needs at least four tab-separated
/// fields, the first one not empty; the fourth, the port, ends at a tab or at
/// the line end (CR or LF), and what follows it is ignored.
pub open spec fn parse_entry(s: Seq<char>) -> EntryView {
    let t0 = scan_tab(s, 0);
    let t1 = scan_tab(s, t0 + 1);
    let t2 = scan_tab(s, t1 + 1);
    let t3 = scan_port_end(s, t2 + 1);
    if t0 == 0 || t2 >= s.len() {
        invalid_entry()
    } else {
        entry_view(
            item_of(s[0]),
            s.subrange(1, t0),
            s.subrange(t0 + 1, t1),
            s.subrange(t1 + 1, t2),
            s.subrange(t2 + 1, t3),
        )
    }
}

/// Appends an entry to a menu under construction: `Unknown` entries are dropped,
/// and an informational entry that follows another one is merged into it, the
/// labels joined by a newline.
pub open spec fn add_entry(acc: Seq<EntryView>, e: EntryView) -> Seq<EntryView> {
    if e.kind == GopherItem::Unknown {
        acc
    } else if e.kind == GopherItem::Info && acc.len() > 0 && acc.last().kind == GopherItem::Info {
        acc.update(
            acc.len() - 1,
            EntryView { label: acc.last().label + seq!['\n'] + e.label, ..acc.last() },
        )
    } else {
        acc.push(e)
    }
}

/// The entries that a sequence of menu lines gives, all of them read.
pub open spec fn entries_of(lines: Seq<Seq<char>>) -> Seq<EntryView>
    decreases lines.len(),
{
    if lines.len() == 0 {
        Seq::empty()
    } else {
        add_entry(entries_of(lines.drop_last()), parse_entry(lines.last()))
    }
}

pub open spec fn is_terminator(line: Seq<char>) -> bool {
    line == seq!['.']
}

/// The first position at or after `i` that holds the terminator line, or the
/// number of lines.
pub open spec fn scan_terminator(lines: Seq<Seq<char>>, i: int) -> int
    decreases lines.len() - i,
{
    if i >= lines.len() || is_terminator(lines[i]) {
        i
    } else {
        scan_terminator(lines, i + 1)
    }
}

/// The menu that a reply's lines give: the lines before the terminator.
pub open spec fn parse_menu(lines: Seq<Seq<char>>) -> Seq<EntryView> {
    entries_of(lines.subrange(0, scan_terminator(lines, 0)))
}

/// `piece` occurs in `s` as a contiguous run.
pub open spec fn contains_run(s: Seq<char>, piece: Seq<char>) -> bool {
    exists|k: int|
        0 <= k && k + piece.len() <= s.len() && #[trigger] s.subrange(k, k + piece.len()) == piece
}

/// `m` holds an informational entry, with no address, whose label holds `piece`.
pub open spec fn has_info_run(m: Seq<EntryView>, piece: Seq<char>) -> bool {
    exists|j: int|
        0 <= j < m.len() && (#[trigger] m[j]).kind == GopherItem::Info && m[j].url is None
            && contains_run(m[j].label, piece)
}

proof fn lemma_info_without_url(ls: Seq<Seq<char>>)
    ensures
        forall|j: int|
            0 <= j < entries_of(ls).len() && #[trigger] entries_of(ls)[j].kind == GopherItem::Info
                ==> entries_of(ls)[j].url is None,
    decreases ls.len(),
{
    if ls.len() > 0 {
        lemma_info_without_url(ls.drop_last());
    }
}

proof fn lemma_last_info_label(ls: Seq<Seq<char>>, a: Seq<char>)
    requires
        parse_entry(a).kind == GopherItem::Info,
    ensures
        entries_of(ls.push(a)).len() > 0,
        entries_of(ls.push(a)).last().kind == GopherItem::Info,
        entries_of(ls.push(a)).last().label.len() >= parse_entry(a).label.len(),
        entries_of(ls.push(a)).last().label.subrange(
            entries_of(ls.push(a)).last().label.len() - parse_entry(a).label.len(),
            entries_of(ls.push(a)).last().label.len() as int,
        ) == parse_entry(a).label,
{
    assert(ls.push(a).drop_last() =~= ls);
    let acc = entries_of(ls);
    let la = parse_entry(a).label;
    if acc.len() > 0 && acc.last().kind == GopherItem::Info {
        let l = acc.last().label + seq!['\n'] + la;
        assert(l.subrange(l.len() - la.len(), l.len() as int) =~= la);
    } else {
        assert(la.subrange(0, la.len() as int) =~= la);
    }
}

proof fn lemma_run_kept(ls: Seq<Seq<char>>, after: Seq<Seq<char>>, j: int, piece: Seq<char>)
    requires
        0 <= j < entries_of(ls).len(),
        entries_of(ls)[j].kind == GopherItem::Info,
        contains_run(entries_of(ls)[j].label, piece),
    ensures
        j < entries_of(ls + after).len(),
        entries_of(ls + after)[j].kind == GopherItem::Info,
        contains_run(entries_of(ls + after)[j].label, piece),
    decreases after.len(),
{
    if after.len() == 0 {
        assert(ls + after =~= ls);
    } else {
        lemma_run_kept(ls, after.drop_last(), j, piece);
        let all = ls + after;
        assert(all.drop_last() =~= ls + after.drop_last());
        let acc = entries_of(ls + after.drop_last());
        let e = parse_entry(all.last());
        if e.kind == GopherItem::Info && acc.len() > 0 && acc.last().kind == GopherItem::Info && j
            == acc.len() - 1 {
            let old_label = acc[j].label;
            let k = choose|k: int|
                0 <= k && k + piece.len() <= old_label.len() && #[trigger] old_label.subrange(
                    k,
                    k + piece.len(),
                ) == piece;
            let new_label = old_label + seq!['\n'] + e.label;
            assert(new_label.subrange(k, k + piece.len()) =~= old_label.subrange(k, k + piece.len()));
            assert(entries_of(all)[j].label == new_label);
        }
    }
}

/// Two informational lines in a row, wherever they stand, give one entry and
/// not two: the first adds an entry and the second adds none; the menu holds an
/// informational entry, with no address, whose label holds the first label, a
/// newline and the second label, in a row.
pub proof fn lemma_info_lines_merge(
    before: Seq<Seq<char>>,
    first: Seq<char>,
    second: Seq<char>,
    after: Seq<Seq<char>>,
)
    requires
        parse_entry(first).kind == GopherItem::Info,
        parse_entry(second).kind == GopherItem::Info,
    ensures
        entries_of(before.push(first).push(second)).len() == entries_of(before.push(first)).len(),
        has_info_run(
            entries_of(before + seq![first, second] + after),
            parse_entry(first).label + seq!['\n'] + parse_entry(second).label,
        ),
{
    let la = parse_entry(first).label;
    let lb = parse_entry(second).label;
    let piece = la + seq!['\n'] + lb;
    let l1 = before.push(first);
    let l2 = l1.push(second);
    lemma_last_info_label(before, first);
    assert(l2.drop_last() =~= l1);
    let e1 = entries_of(l1);
    let j = e1.len() - 1;
    let x = e1.last().label;
    let k = x.len() - la.len();
    let merged = x + seq!['\n'] + lb;
    assert(entries_of(l2)[j].label == merged);
    assert(merged.subrange(k, k + piece.len()) =~= piece) by {
        assert forall|i: int| 0 <= i < piece.len() implies merged.subrange(k, k + piece.len())[i]
            == piece[i] by {
            if i < la.len() {
                assert(x.subrange(k, x.len() as int)[i] == la[i]);
            }
        }
    }
    assert(contains_run(entries_of(l2)[j].label, piece));
    lemma_run_kept(l2, after, j, piece);
    assert(l2 + after =~= before + seq![first, second] + after);
    lemma_info_without_url(before + seq![first, second] + after);
    let m = entries_of(before + seq![first, second] + after);
    assert(m[j].kind == GopherItem::Info && m[j].url is None && contains_run(m[j].label, piece));
}

proof fn lemma_no_terminator_before(lines: Seq<Seq<char>>, i: int, k: int)
    requires
        0 <= i <= k <= lines.len(),
        forall|m: int| i <= m < k ==> !is_terminator(#[trigger] lines[m]),
    ensures
        scan_terminator(lines, i) >= k,
        scan_terminator(lines, i) <= lines.len(),
    decreases k - i,
{
    if i < k {
        lemma_no_terminator_before(lines, i + 1, k);
    } else {
        lemma_scan_terminator_bound(lines, i);
    }
}

proof fn lemma_scan_terminator_bound(lines: Seq<Seq<char>>, i: int)
    requires
        0 <= i <= lines.len(),
    ensures
        i <= scan_terminator(lines, i) <= lines.len(),
    decreases lines.len() - i,
{
    if i < lines.len() && !is_terminator(lines[i]) {
        lemma_scan_terminator_bound(lines, i + 1);
    }
}

/// The same law for a whole reply: where no terminator comes before them, two
/// informational lines in a row stand in the menu as one entry holding both labels.
pub proof fn lemma_menu_merges_info_lines(
    before: Seq<Seq<char>>,
    first: Seq<char>,
    second: Seq<char>,
    after: Seq<Seq<char>>,
)
    requires
        parse_entry(first).kind == GopherItem::Info,
        parse_entry(second).kind == GopherItem::Info,
        forall|m: int| 0 <= m < before.len() ==> !is_terminator(#[trigger] before[m]),
    ensures
        has_info_run(
            parse_menu(before + seq![first, second] + after),
            parse_entry(first).label + seq!['\n'] + parse_entry(second).label,
        ),
{
    let lines = before + seq![first, second] + after;
    let n = before.len() as int;
    let dot = seq!['.'];
    assert(scan_tab(dot, 1) == 1);
    assert(parse_entry(dot).kind == GopherItem::Unknown);
    assert forall|m: int| 0 <= m < n + 2 implies !is_terminator(#[trigger] lines[m]) by {
        if m < n {
            assert(lines[m] == before[m]);
        } else if m == n {
            assert(lines[m] == first);
        } else {
            assert(lines[m] == second);
        }
    }
    lemma_no_terminator_before(lines, 0, n + 2);
    let t = scan_terminator(lines, 0);
    let rest = lines.subrange(n + 2, t);
    assert(lines.subrange(0, t) =~= before + seq![first, second] + rest);
    lemma_info_lines_merge(before, first, second, rest);
}

pub open spec fn line_views(lines: Seq<String>) -> Seq<Seq<char>> {
    lines.map_values(|l: String| l@)
}

fn find_tab(v: &Vec<char>, start: usize) -> (e: usize)
    requires
        start <= v@.len(),
    ensures
        e == scan_tab(v@, start as int),
        start <= e <= v@.len(),
{
    let mut i = start;
    while i < v.len() && v[i] != '\t'
        invariant
            start <= i <= v@.len(),
            scan_tab(v@, i as int) == scan_tab(v@, start as int),
        decreases v.len() - i,
    {
        i = i + 1;
    }
    i
}

fn find_port_end(v: &Vec<char>, start: usize) -> (e: usize)
    requires
        start <= v@.len(),
    ensures
        e == scan_port_end(v@, start as int),
        start <= e <= v@.len(),
{
    let mut i = start;
    while i < v.len() && v[i] != '\t' && v[i] != '\r' && v[i] != '\n'
        invariant
            start <= i <= v@.len(),
            scan_port_end(v@, i as int) == scan_port_end(v@, start as int),
        decreases v.len() - i,
    {
        i = i + 1;
    }
    i
}

impl DirEntry {
    /// The entry for the given fields; `Info` entries get no address.
    pub fn new(item_type: GopherItem, label: &str, selector: &str, host: &str, port: &str) -> (r:
        DirEntry)
        ensures
            r@ == entry_view(item_type, label@, selector@, host@, port@),
    {
        match item_type {
            GopherItem::Info => DirEntry { item_type, label: String::from_str(label), url: None },
            _ => DirEntry {
                item_type,
                label: String::from_str(label),
                url: Some(GopherURL::new(host, port, &item_type, selector)),
            },
        }
    }

    fn from_chars(v: &Vec<char>) -> (r: DirEntry)
        ensures
            r@ == parse_entry(v@),
    {
        let n = v.len();
        let t0 = find_tab(v, 0);
        if t0 == 0 || t0 == n {
            return DirEntry { item_type: GopherItem::Unknown, label: String::new(), url: None };
        }
        let t1 = find_tab(v, t0 + 1);
        if t1 == n {
            return DirEntry { item_type: GopherItem::Unknown, label: String::new(), url: None };
        }
        let t2 = find_tab(v, t1 + 1);
        if t2 == n {
            return DirEntry { item_type: GopherItem::Unknown, label: String::new(), url: None };
        }
        let t3 = find_port_end(v, t2 + 1);
        let kind = GopherItem::from_char(v[0]);
        let label = string_of(v, 1, t0);
        let selector = string_of(v, t0 + 1, t1);
        let host = string_of(v, t1 + 1, t2);
        let port = string_of(v, t2 + 1, t3);
        DirEntry::new(kind, label.as_str(), selector.as_str(), host.as_str(), port.as_str())
    }

    /// Reads one menu line, with or without its CR LF. A line with fewer than four
    /// tab-separated fields, or an empty first field, gives an `Unknown` entry with
    /// no label and no address.
    pub fn parse(line: &str) -> (r: DirEntry)
        ensures
            r@ == parse_entry(line@),
    {
        let v = chars_of(line);
        DirEntry::from_chars(&v)
    }
}

impl Menu {
    /// Whether `line` is the line that ends a menu: a single `.`.
    pub fn is_end_line(line: &str) -> (b: bool)
        ensures
            b == is_terminator(line@),
    {
        let v = chars_of(line);
        let b = v.len() == 1 && v[0] == '.';
        assert(b ==> v@ =~= seq!['.']);
        b
    }

    /// The menu that the lines of a reply describe. Reading stops at a line
    /// holding a single `.`; lines that are not entries are skipped, and
    /// consecutive informational lines become one entry.
    pub fn from_lines(lines: &Vec<String>) -> (m: Menu)
        ensures
            m@ == parse_menu(line_views(lines@)),
    {
        let ghost ls = line_views(lines@);
        let mut items: Vec<DirEntry> = Vec::new();
        let mut i: usize = 0;
        while i < lines.len()
            invariant
                i <= lines@.len(),
                ls == line_views(lines@),
                scan_terminator(ls, 0) == scan_terminator(ls, i as int),
                items@.map_values(|e: DirEntry| e@) == entries_of(ls.subrange(0, i as int)),
            ensures
                i <= lines@.len(),
                scan_terminator(ls, 0) == i,
                items@.map_values(|e: DirEntry| e@) == entries_of(ls.subrange(0, i as int)),
            decreases lines.len() - i,
        {
            let v = chars_of(lines[i].as_str());
            assert(v@ == ls[i as int]);
            if v.len() == 1 && v[0] == '.' {
                assert(v@ =~= seq!['.']);
                assert(scan_terminator(ls, i as int) == i);
                break;
            }
            assert(!is_terminator(ls[i as int]));
            let e = DirEntry::from_chars(&v);
            let ghost acc = items@.map_values(|e: DirEntry| e@);
            assert(ls.subrange(0, i + 1).drop_last() =~= ls.subrange(0, i as int));
            match e.item_type {
                GopherItem::Unknown => {},
                GopherItem::Info => {
                    let n = items.len();
                    if n > 0 && items[n - 1].item_type == GopherItem::Info {
                        let ghost before = items@;
                        let mut last = items.pop().unwrap();
                        assert(items@ == before.drop_last());
                        assert(last@ == acc.last());
                        let ghost old_label = last.label@;
                        proof {
                            reveal_strlit("\n");
                        }
                        last.label.append("\n");
                        last.label.append(e.label.as_str());
                        assert(last.label@ =~= old_label + seq!['\n'] + e@.label);
                        assert(last@ == (EntryView {
                            label: acc.last().label + seq!['\n'] + e@.label,
                            ..acc.last()
                        }));
                        items.push(last);
                        assert(items@ == before.drop_last().push(last));
                        assert(items@.map_values(|e: DirEntry| e@) =~= add_entry(acc, e@));
                    } else {
                        items.push(e);
                        assert(items@.map_values(|e: DirEntry| e@) =~= add_entry(acc, e@));
                    }
                },
                _ => {
                    items.push(e);
                    assert(items@.map_values(|e: DirEntry| e@) =~= add_entry(acc, e@));
                },
            }
            i = i + 1;
        }
        Menu { items }
    }
}

} // verus!
