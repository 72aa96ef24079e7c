use vstd::prelude::*;
use vstd::string::StrSliceExecFns;
use crate::apps::{App, AppView, AppProvider, app_views, build_index, is_index_of};
use crate::text::{
    texts, trim_end, is_space, trim, trim_start, chars_of, is_space_char, skip_spaces, trim_span,
    span_equals,
};

verus! {

/// What a scan of a desktop entry has gathered so far.
pub struct Scan {
    pub name: Option<Seq<char>>,
    pub command: Option<Seq<char>>,
    pub icon: Option<Seq<char>>,
    pub hidden: bool,
    pub in_main: bool,
    pub stopped: bool,
}

pub open spec fn scan_start() -> Scan {
    Scan { name: None, command: None, icon: None, hidden: false, in_main: false, stopped: false }
}

pub open spec fn main_header() -> Seq<char> {
    seq!['[', 'D', 'e', 's', 'k', 't', 'o', 'p', ' ', 'E', 'n', 't', 'r', 'y', ']']
}

pub open spec fn key_name() -> Seq<char> {
    seq!['N', 'a', 'm', 'e']
}

pub open spec fn key_exec() -> Seq<char> {
    seq!['E', 'x', 'e', 'c']
}

pub open spec fn key_icon() -> Seq<char> {
    seq!['I', 'c', 'o', 'n']
}

pub open spec fn key_no_display() -> Seq<char> {
    seq!['N', 'o', 'D', 'i', 's', 'p', 'l', 'a', 'y']
}

pub open spec fn word_true() -> Seq<char> {
    seq!['t', 'r', 'u', 'e']
}

/// The first position at or after `i` that holds `c`, or the length.
pub open spec fn find_from(s: Seq<char>, c: char, i: int) -> int
    decreases s.len() - i,
{
    if i >= s.len() {
        s.len() as int
    } else if s[i] == c {
        i
    } else {
        find_from(s, c, i + 1)
    }
}

/// The first position at or after `i` that holds whitespace, or the length.
pub open spec fn word_end(s: Seq<char>, i: int) -> int
    decreases s.len() - i,
{
    if i >= s.len() {
        s.len() as int
    } else if is_space(s[i]) {
        i
    } else {
        word_end(s, i + 1)
    }
}

/// The first whitespace-delimited word of a text, if it has one.
pub open spec fn first_word(v: Seq<char>) -> Option<Seq<char>> {
    let t = trim_start(v);
    if t.len() == 0 {
        None
    } else {
        Some(t.subrange(0, word_end(t, 0)))
    }
}

/// A trimmed line that opens a section.
pub open spec fn is_header(line: Seq<char>) -> bool {
    line.len() > 0 && line[0] == '[' && line.last() == ']'
}

/// The effect of one `key=value` pair of the main section.
pub open spec fn apply_pair(st: Scan, key: Seq<char>, value: Seq<char>) -> Scan {
    if key == key_name() {
        Scan { name: Some(trim(value)), ..st }
    } else if key == key_exec() {
        match first_word(value) {
            Some(w) => Scan { command: Some(w), ..st },
            None => st,
        }
    } else if key == key_icon() {
        Scan { icon: Some(trim(value)), ..st }
    } else if key == key_no_display() && trim(value) == word_true() {
        Scan { hidden: true, ..st }
    } else {
        st
    }
}

/// The effect of one raw line on the scan.
pub open spec fn scan_line(st: Scan, raw: Seq<char>) -> Scan {
    let line = trim(raw);
    if st.stopped || line.len() == 0 || line[0] == '#' {
        st
    } else if is_header(line) {
        if line != main_header() && st.name is Some && st.command is Some {
            Scan { in_main: false, stopped: true, ..st }
        } else {
            Scan { in_main: line == main_header(), ..st }
        }
    } else if !st.in_main {
        st
    } else {
        let k = find_from(line, '=', 0);
        if k >= line.len() {
            st
        } else {
            apply_pair(st, trim(line.subrange(0, k)), line.subrange(k + 1, line.len() as int))
        }
    }
}

/// The text cut at each line feed; always at least one piece.
pub open spec fn split_lines(s: Seq<char>) -> Seq<Seq<char>>
    decreases s.len(),
{
    if s.len() == 0 {
        seq![Seq::empty()]
    } else {
        let p = split_lines(s.drop_last());
        if s.last() == '\n' {
            p.push(Seq::empty())
        } else {
            p.update(p.len() - 1, p.last().push(s.last()))
        }
    }
}

pub open spec fn scan_lines(ls: Seq<Seq<char>>) -> Scan
    decreases ls.len(),
{
    if ls.len() == 0 {
        scan_start()
    } else {
        scan_line(scan_lines(ls.drop_last()), ls.last())
    }
}

/// The scan of a whole desktop entry.
pub open spec fn scan_text(content: Seq<char>) -> Scan {
    scan_lines(split_lines(content))
}

/// The application that a desktop entry describes, if it describes a
/// visible one with a non-empty name and a command.
pub open spec fn entry_of(content: Seq<char>) -> Option<AppView> {
    let st = scan_text(content);
    if st.hidden {
        None
    } else {
        match (st.name, st.command) {
            (Some(n), Some(e)) => if n.len() == 0 {
                None
            } else {
                Some(AppView { name: n, exec_path: e, icon_name: st.icon })
            },
            _ => None,
        }
    }
}

pub open spec fn opt_app_view(o: Option<App>) -> Option<AppView> {
    match o {
        Some(a) => Some(a@),
        None => None,
    }
}

#[derive(Clone, Copy)]
struct Spans {
    name: Option<(usize, usize)>,
    command: Option<(usize, usize)>,
    icon: Option<(usize, usize)>,
    hidden: bool,
    in_main: bool,
    stopped: bool,
}

spec fn span_text(cs: Seq<char>, sp: Option<(usize, usize)>) -> Option<Seq<char>> {
    match sp {
        Some((a, b)) => Some(cs.subrange(a as int, b as int)),
        None => None,
    }
}

spec fn span_ok(sp: Option<(usize, usize)>, n: nat) -> bool {
    match sp {
        Some((a, b)) => a <= b <= n,
        None => true,
    }
}

spec fn spans_ok(sp: Spans, n: nat) -> bool {
    span_ok(sp.name, n) && span_ok(sp.command, n) && span_ok(sp.icon, n)
}

spec fn spans_scan(sp: Spans, cs: Seq<char>) -> Scan {
    Scan {
        name: span_text(cs, sp.name),
        command: span_text(cs, sp.command),
        icon: span_text(cs, sp.icon),
        hidden: sp.hidden,
        in_main: sp.in_main,
        stopped: sp.stopped,
    }
}

fn find_char(cs: &Vec<char>, c: char, lo: usize, hi: usize) -> (k: usize)
    requires
        lo <= hi <= cs@.len(),
    ensures
        lo <= k <= hi,
        k - lo == find_from(cs@.subrange(lo as int, hi as int), c, 0),
{
    let ghost s = cs@.subrange(lo as int, hi as int);
    let mut k: usize = lo;
    while k < hi && cs[k] != c
        invariant
            lo <= k <= hi <= cs@.len(),
            s == cs@.subrange(lo as int, hi as int),
            find_from(s, c, k - lo) == find_from(s, c, 0),
        decreases hi - k,
    {
        k = k + 1;
    }
    k
}

fn word_end_at(cs: &Vec<char>, lo: usize, hi: usize) -> (k: usize)
    requires
        lo <= hi <= cs@.len(),
    ensures
        lo <= k <= hi,
        k - lo == word_end(cs@.subrange(lo as int, hi as int), 0),
{
    let ghost s = cs@.subrange(lo as int, hi as int);
    let mut k: usize = lo;
    while k < hi && !is_space_char(cs[k])
        invariant
            lo <= k <= hi <= cs@.len(),
            s == cs@.subrange(lo as int, hi as int),
            word_end(s, k - lo) == word_end(s, 0),
        decreases hi - k,
    {
        k = k + 1;
    }
    k
}

fn apply_pair_exec(cs: &Vec<char>, ka: usize, kb: usize, va: usize, vb: usize, sp: Spans) -> (r:
    Spans)
    requires
        ka <= kb <= cs@.len(),
        va <= vb <= cs@.len(),
        spans_ok(sp, cs@.len()),
    ensures
        spans_ok(r, cs@.len()),
        spans_scan(r, cs@) == apply_pair(
            spans_scan(sp, cs@),
            cs@.subrange(ka as int, kb as int),
            cs@.subrange(va as int, vb as int),
        ),
{
    let ghost key = cs@.subrange(ka as int, kb as int);
    let ghost value = cs@.subrange(va as int, vb as int);
    let name_key: [char; 4] = ['N', 'a', 'm', 'e'];
    let exec_key: [char; 4] = ['E', 'x', 'e', 'c'];
    let icon_key: [char; 4] = ['I', 'c', 'o', 'n'];
    let hide_key: [char; 9] = ['N', 'o', 'D', 'i', 's', 'p', 'l', 'a', 'y'];
    let yes: [char; 4] = ['t', 'r', 'u', 'e'];
    assert(name_key@ == key_name());
    assert(exec_key@ == key_exec());
    assert(icon_key@ == key_icon());
    assert(hide_key@ == key_no_display());
    assert(yes@ == word_true());
    if span_equals(cs, ka, kb, name_key.as_slice()) {
        let (x, y) = trim_span(cs, va, vb);
        return Spans { name: Some((x, y)), ..sp };
    }
    if span_equals(cs, ka, kb, exec_key.as_slice()) {
        let s = skip_spaces(cs, va, vb);
        if s == vb {
            return sp;
        }
        let e = word_end_at(cs, s, vb);
        assert(cs@.subrange(s as int, vb as int).subrange(0, e - s) =~= cs@.subrange(
            s as int,
            e as int,
        ));
        return Spans { command: Some((s, e)), ..sp };
    }
    if span_equals(cs, ka, kb, icon_key.as_slice()) {
        let (x, y) = trim_span(cs, va, vb);
        return Spans { icon: Some((x, y)), ..sp };
    }
    if span_equals(cs, ka, kb, hide_key.as_slice()) {
        let (x, y) = trim_span(cs, va, vb);
        if span_equals(cs, x, y, yes.as_slice()) {
            return Spans { hidden: true, ..sp };
        }
    }
    sp
}

fn scan_line_exec(cs: &Vec<char>, lo: usize, hi: usize, sp: Spans) -> (r: Spans)
    requires
        lo <= hi <= cs@.len(),
        spans_ok(sp, cs@.len()),
    ensures
        spans_ok(r, cs@.len()),
        spans_scan(r, cs@) == scan_line(spans_scan(sp, cs@), cs@.subrange(lo as int, hi as int)),
{
    let ghost line = trim(cs@.subrange(lo as int, hi as int));
    let (a, b) = trim_span(cs, lo, hi);
    if sp.stopped || a == b {
        return sp;
    }
    assert(line[0] == cs@[a as int]);
    assert(line.last() == cs@[b - 1]);
    if cs[a] == '#' {
        return sp;
    }
    if cs[a] == '[' && cs[b - 1] == ']' {
        let header: [char; 15] = [
            '[',
            'D',
            'e',
            's',
            'k',
            't',
            'o',
            'p',
            ' ',
            'E',
            'n',
            't',
            'r',
            'y',
            ']',
        ];
        assert(header@ == main_header());
        let main = span_equals(cs, a, b, header.as_slice());
        if !main && sp.name.is_some() && sp.command.is_some() {
            return Spans { in_main: false, stopped: true, ..sp };
        }
        return Spans { in_main: main, ..sp };
    }
    if !sp.in_main {
        return sp;
    }
    let k = find_char(cs, '=', a, b);
    if k == b {
        return sp;
    }
    let (ka, kb) = trim_span(cs, a, k);
    assert(line.subrange(0, k - a) =~= cs@.subrange(a as int, k as int));
    assert(line.subrange(k - a + 1, line.len() as int) =~= cs@.subrange(k + 1, b as int));
    apply_pair_exec(cs, ka, kb, k + 1, b, sp)
}

/// Reads one desktop entry. Only the `[Desktop Entry]` section counts; the
/// name and icon are trimmed, the command keeps its first word, and an entry
/// marked `NoDisplay=true` gives nothing.
pub fn parse_desktop_entry(content: &str) -> (r: Option<App>)
    ensures
        opt_app_view(r) == entry_of(content@),
        r matches Some(a) ==> entry_ok(a@),
{
    proof {
        lemma_entry_ok(content@);
    }
    let cs = chars_of(content);
    let mut sp = Spans {
        name: None,
        command: None,
        icon: None,
        hidden: false,
        in_main: false,
        stopped: false,
    };
    let mut start: usize = 0;
    let mut i: usize = 0;
    while i < cs.len()
        invariant
            start <= i <= cs@.len(),
            spans_ok(sp, cs@.len()),
            split_lines(cs@.take(i as int)).len() >= 1,
            split_lines(cs@.take(i as int)).last() == cs@.subrange(start as int, i as int),
            spans_scan(sp, cs@) == scan_lines(split_lines(cs@.take(i as int)).drop_last()),
        decreases cs@.len() - i,
    {
        let ghost p = split_lines(cs@.take(i as int));
        assert(cs@.take(i + 1).drop_last() =~= cs@.take(i as int));
        if cs[i] == '\n' {
            assert(p =~= p.drop_last().push(p.last()));
            sp = scan_line_exec(&cs, start, i, sp);
            start = i + 1;
            assert(split_lines(cs@.take(i + 1)).drop_last() =~= p);
        } else {
            assert(split_lines(cs@.take(i + 1)).drop_last() =~= p.drop_last());
            assert(cs@.subrange(start as int, i + 1) =~= cs@.subrange(start as int, i as int).push(
                cs@[i as int],
            ));
        }
        i = i + 1;
    }
    let ghost p = split_lines(cs@.take(i as int));
    assert(cs@.take(i as int) =~= content@);
    assert(p =~= p.drop_last().push(p.last()));
    sp = scan_line_exec(&cs, start, i, sp);
    if sp.hidden {
        return None;
    }
    match (sp.name, sp.command) {
        (Some((a, b)), Some((c, d))) => {
            if a == b {
                return None;
            }
            let icon = match sp.icon {
                Some((x, y)) => Some(content.substring_char(x, y).to_owned()),
                None => None,
            };
            Some(
                App {
                    name: content.substring_char(a, b).to_owned(),
                    exec_path: content.substring_char(c, d).to_owned(),
                    icon_name: icon,
                },
            )
        },
        _ => None,
    }
}

/// An entry has a non-empty name and a non-empty command.
pub open spec fn entry_ok(e: AppView) -> bool {
    e.name.len() > 0 && e.exec_path.len() > 0
}

proof fn lemma_trim_start_head(s: Seq<char>)
    ensures
        trim_start(s).len() > 0 ==> !is_space(trim_start(s)[0]),
    decreases s.len(),
{
    if s.len() > 0 && is_space(s[0]) {
        lemma_trim_start_head(s.drop_first());
    }
}

proof fn lemma_word_end_from(s: Seq<char>, i: int)
    requires
        0 <= i <= s.len(),
    ensures
        i <= word_end(s, i) <= s.len(),
    decreases s.len() - i,
{
    if i < s.len() && !is_space(s[i]) {
        lemma_word_end_from(s, i + 1);
    }
}

/// The first word of a text, when there is one, is not empty.
proof fn lemma_first_word_nonempty(v: Seq<char>)
    ensures
        first_word(v) matches Some(w) ==> w.len() > 0,
{
    let t = trim_start(v);
    lemma_trim_start_head(v);
    if t.len() > 0 {
        lemma_word_end_from(t, 1);
    }
}

/// Every command a scan records is non-empty.
proof fn lemma_scan_command_nonempty(ls: Seq<Seq<char>>)
    ensures
        scan_lines(ls).command matches Some(c) ==> c.len() > 0,
    decreases ls.len(),
{
    if ls.len() > 0 {
        lemma_scan_command_nonempty(ls.drop_last());
        let line = trim(ls.last());
        let k = find_from(line, '=', 0);
        lemma_first_word_nonempty(line.subrange(k + 1, line.len() as int));
    }
}

/// What a desktop entry describes has a non-empty name and command.
pub proof fn lemma_entry_ok(content: Seq<char>)
    ensures
        entry_of(content) matches Some(e) ==> entry_ok(e),
{
    lemma_scan_command_nonempty(split_lines(content));
}

/// Every entry read from a list of texts has a non-empty name and command.
pub proof fn lemma_parsed_entries_ok(sources: Seq<Seq<char>>)
    ensures
        forall|i: int| 0 <= i < parsed_entries(sources).len() ==> entry_ok(
            #[trigger] parsed_entries(sources)[i],
        ),
    decreases sources.len(),
{
    if sources.len() > 0 {
        lemma_parsed_entries_ok(sources.drop_last());
        lemma_entry_ok(sources.last());
        let p = parsed_entries(sources.drop_last());
        let all = parsed_entries(sources);
        assert forall|i: int| 0 <= i < all.len() implies entry_ok(#[trigger] all[i]) by {
            if i < p.len() {
                assert(all[i] == p[i]);
            }
        }
    }
}

/// A line whose key trims to `NoDisplay` and whose value trims to `true`.
pub open spec fn is_no_display_line(raw: Seq<char>) -> bool {
    let line = trim(raw);
    let k = find_from(line, '=', 0);
    &&& k < line.len()
    &&& trim(line.subrange(0, k)) == key_no_display()
    &&& trim(line.subrange(k + 1, line.len() as int)) == word_true()
}

proof fn lemma_trim_end_prefix(s: Seq<char>)
    ensures
        trim_end(s).len() <= s.len(),
        trim_end(s) == s.subrange(0, trim_end(s).len() as int),
    decreases s.len(),
{
    if s.len() > 0 && is_space(s.last()) {
        lemma_trim_end_prefix(s.drop_last());
        assert(s.drop_last().subrange(0, trim_end(s).len() as int) =~= s.subrange(
            0,
            trim_end(s).len() as int,
        ));
    } else {
        assert(s.subrange(0, s.len() as int) =~= s);
    }
}

/// A trimmed text that is not empty starts with a character that is not
/// whitespace, the first such character of the text.
proof fn lemma_trim_head(s: Seq<char>)
    ensures
        trim(s).len() > 0 ==> !is_space(trim(s)[0]) && trim(s)[0] == trim_start(s)[0],
{
    lemma_trim_start_head(s);
    lemma_trim_end_prefix(trim_start(s));
    if trim(s).len() > 0 {
        assert(trim(s)[0] == trim_start(s).subrange(0, trim(s).len() as int)[0]);
    }
}

proof fn lemma_find_from_bounds(s: Seq<char>, c: char, i: int)
    requires
        0 <= i <= s.len(),
    ensures
        i <= find_from(s, c, i) <= s.len(),
    decreases s.len() - i,
{
    if i < s.len() && s[i] != c {
        lemma_find_from_bounds(s, c, i + 1);
    }
}

proof fn lemma_no_display_line_hides(st: Scan, raw: Seq<char>)
    requires
        st.in_main,
        !st.stopped,
        is_no_display_line(raw),
    ensures
        scan_line(st, raw).hidden,
{
    let line = trim(raw);
    let k = find_from(line, '=', 0);
    let kp = line.subrange(0, k);
    lemma_trim_head(raw);
    lemma_find_from_bounds(line, '=', 0);
    assert(key_no_display().len() == 9);
    if k == 0 {
        assert(kp =~= Seq::<char>::empty());
        assert(trim(kp).len() == 0);
    }
    assert(kp[0] == line[0]);
    assert(trim_start(kp) == kp);
    lemma_trim_end_prefix(kp);
    assert(trim(kp)[0] == kp[0]);
    assert(line[0] == 'N');
    assert(key_no_display() != key_name());
    assert(key_no_display() != key_exec());
    assert(key_no_display() != key_icon());
}

proof fn lemma_hidden_stays(ls: Seq<Seq<char>>, n: int)
    requires
        0 <= n <= ls.len(),
        scan_lines(ls.take(n)).hidden,
    ensures
        scan_lines(ls).hidden,
    decreases ls.len(),
{
    if n == ls.len() {
        assert(ls.take(n) =~= ls);
    } else {
        assert(ls.drop_last().take(n) =~= ls.take(n));
        lemma_hidden_stays(ls.drop_last(), n);
    }
}

/// A desktop entry with a `NoDisplay=true` line, met while the scan is in
/// the `[Desktop Entry]` section and has not stopped, gives no application,
/// whatever its name, command and icon lines.
pub proof fn lemma_no_display_entry_hidden(content: Seq<char>, j: int)
    requires
        0 <= j < split_lines(content).len(),
        is_no_display_line(split_lines(content)[j]),
        scan_lines(split_lines(content).take(j)).in_main,
        !scan_lines(split_lines(content).take(j)).stopped,
    ensures
        scan_text(content).hidden,
        entry_of(content) is None,
{
    let ls = split_lines(content);
    lemma_no_display_line_hides(scan_lines(ls.take(j)), ls[j]);
    assert(ls.take(j + 1).drop_last() =~= ls.take(j));
    assert(ls.take(j + 1).last() == ls[j]);
    lemma_hidden_stays(ls, j + 1);
}

/// The entries read from a list of desktop-entry texts, in list order.
pub open spec fn parsed_entries(sources: Seq<Seq<char>>) -> Seq<AppView>
    decreases sources.len(),
{
    if sources.len() == 0 {
        Seq::empty()
    } else {
        let p = parsed_entries(sources.drop_last());
        match entry_of(sources.last()) {
            Some(e) => p.push(e),
            None => p,
        }
    }
}

pub proof fn lemma_parsed_concat(a: Seq<Seq<char>>, b: Seq<Seq<char>>)
    ensures
        parsed_entries(a + b) == parsed_entries(a) + parsed_entries(b),
    decreases b.len(),
{
    if b.len() == 0 {
        assert(a + b =~= a);
        assert(parsed_entries(a) + parsed_entries(b) =~= parsed_entries(a));
    } else {
        lemma_parsed_concat(a, b.drop_last());
        assert((a + b).drop_last() =~= a + b.drop_last());
        assert((a + b).last() == b.last());
        match entry_of(b.last()) {
            Some(e) => {
                assert(parsed_entries(a) + parsed_entries(b.drop_last()).push(e) =~= (
                parsed_entries(a) + parsed_entries(b.drop_last())).push(e));
            },
            None => {},
        }
    }
}

/// A desktop entry marked `NoDisplay=true` in its main section gives no
/// application, whatever else it holds, and so adds nothing to the catalog:
/// the entries read from a list of texts are those read from the list
/// without it.
pub proof fn lemma_hidden_entry_adds_nothing(sources: Seq<Seq<char>>, k: int)
    requires
        0 <= k < sources.len(),
        scan_text(sources[k]).hidden,
    ensures
        entry_of(sources[k]) is None,
        parsed_entries(sources) == parsed_entries(sources.remove(k)),
{
    let pre = sources.take(k);
    let post = sources.skip(k + 1);
    let one = seq![sources[k]];
    assert(sources =~= (pre + one) + post);
    assert(sources.remove(k) =~= pre + post);
    lemma_parsed_concat(pre + one, post);
    lemma_parsed_concat(pre, post);
    assert((pre + one).drop_last() =~= pre);
    assert((pre + one).last() == sources[k]);
}

/// Builds the catalog from the texts of desktop entries found on disk.
pub struct LinuxProvider;

impl AppProvider for LinuxProvider {
    type Found = String;

    open spec fn entries(found: Seq<String>) -> Seq<AppView> {
        parsed_entries(texts(found))
    }

    fn get_apps(&self, found: Vec<String>) -> (r: Vec<App>) {
        let mut apps: Vec<App> = Vec::new();
        let mut i: usize = 0;
        while i < found.len()
            invariant
                i <= found@.len(),
                app_views(apps@) == parsed_entries(texts(found@).take(i as int)),
            decreases found@.len() - i,
        {
            let parsed = parse_desktop_entry(found[i].as_str());
            let ghost before = apps@;
            assert(texts(found@).take(i + 1).drop_last() =~= texts(found@).take(i as int));
            assert(texts(found@).take(i + 1).last() == found@[i as int]@);
            match parsed {
                Some(a) => {
                    apps.push(a);
                    assert(app_views(apps@) =~= app_views(before).push(a@));
                },
                None => {},
            }
            i = i + 1;
        }
        assert(texts(found@).take(i as int) =~= texts(found@));
        build_index(apps)
    }
}

} // verus!
