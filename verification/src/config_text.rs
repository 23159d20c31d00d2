//! Reading and writing the `EnableReplayApi` switch of a League `game.cfg`
//! text.  Reading looks at the first setting line anywhere in the file;
//! writing rewrites that setting inside the `[General]` section, adding it
//! (and the section) when it is missing.
use vstd::prelude::*;
use crate::text::{
    is_ws, lemma_first_index_bounds, strip_cr, trim_end, trim_start,
    chars_of, eq_chars, find_from, first_index, join_lines, lines, lines_vec, lower, lower_vec, push_all,
    slice, starts_with, string_of, trim, trim_vec,
};

verus! {

broadcast use vstd::seq_lib::group_seq_properties;

/// `enablereplayapi`, the lower-cased name of the setting.
pub open spec fn api_key() -> Seq<char> {
    seq!['e', 'n', 'a', 'b', 'l', 'e', 'r', 'e', 'p', 'l', 'a', 'y', 'a', 'p', 'i']
}

/// `[general]`, the lower-cased section header.
pub open spec fn general_key() -> Seq<char> {
    seq!['[', 'g', 'e', 'n', 'e', 'r', 'a', 'l', ']']
}

/// `[General]`, the header written when the file has no such section.
pub open spec fn general_header() -> Seq<char> {
    seq!['[', 'G', 'e', 'n', 'e', 'r', 'a', 'l', ']']
}

/// `EnableReplayApi=1` or `EnableReplayApi=0`.
pub open spec fn value_line(enabled: bool) -> Seq<char> {
    seq!['E', 'n', 'a', 'b', 'l', 'e', 'R', 'e', 'p', 'l', 'a', 'y', 'A', 'p', 'i', '='].push(
        if enabled {
            '1'
        } else {
            '0'
        },
    )
}

/// The part of a line before its first `;` comment.
pub open spec fn before_comment(l: Seq<char>) -> Seq<char> {
    l.take(first_index(l, ';') as int)
}

/// The value after the first `=` of a setting line, trimmed; empty without `=`.
pub open spec fn setting_value(t: Seq<char>) -> Seq<char> {
    if first_index(t, '=') < t.len() {
        trim(t.skip((first_index(t, '=') + 1) as int))
    } else {
        seq![]
    }
}

/// `1` and `true` (in any ASCII case) switch the API on.
pub open spec fn value_is_on(v: Seq<char>) -> bool {
    lower(v) == seq!['1'] || lower(v) == seq!['t', 'r', 'u', 'e']
}

/// How a reader sees one line: `Some(on)` for a replay-API setting line,
/// `None` for any other line.
pub open spec fn read_line(l: Seq<char>) -> Option<bool> {
    let t = trim(before_comment(l));
    if starts_with(lower(t), api_key()) {
        Some(value_is_on(setting_value(t)))
    } else {
        None
    }
}

/// The first replay-API setting line decides; without one the API is off.
pub open spec fn read_lines(ls: Seq<Seq<char>>) -> bool
    decreases ls.len(),
{
    if ls.len() == 0 {
        false
    } else {
        match read_line(ls[0]) {
            Some(on) => on,
            None => read_lines(ls.drop_first()),
        }
    }
}

/// Whether the config text enables the Replay API.
pub open spec fn cfg_enabled(text: Seq<char>) -> bool {
    read_lines(lines(text))
}

/// A trimmed line `[...]` opens a section.
pub open spec fn is_header(t: Seq<char>) -> bool {
    t.len() > 0 && t[0] == '[' && t.last() == ']'
}

/// State of the writer after some of the lines.
pub struct CfgScan {
    pub out: Seq<Seq<char>>,
    pub in_general: bool,
    pub replaced: bool,
    pub general_idx: Option<int>,
}

pub open spec fn scan_init() -> CfgScan {
    CfgScan { out: seq![], in_general: false, replaced: false, general_idx: None }
}

/// The writer's step on one line: at a header that closes a `[General]`
/// section whose setting was not seen, the setting is written first; a
/// setting line inside `[General]` is replaced; every other line is kept.
pub open spec fn scan_step(st: CfgScan, l: Seq<char>, enabled: bool) -> CfgScan {
    let t = trim(l);
    if is_header(t) {
        let out1 = if st.in_general && !st.replaced {
            st.out.push(value_line(enabled))
        } else {
            st.out
        };
        let ig = lower(t) == general_key();
        CfgScan {
            out: out1.push(l),
            in_general: ig,
            replaced: st.replaced || st.in_general,
            general_idx: if ig {
                Some(out1.len() as int)
            } else {
                st.general_idx
            },
        }
    } else if st.in_general && starts_with(lower(t), api_key()) {
        CfgScan { out: st.out.push(value_line(enabled)), replaced: true, ..st }
    } else {
        CfgScan { out: st.out.push(l), ..st }
    }
}

/// The writer's state after the first `n` lines.
pub open spec fn scan(ls: Seq<Seq<char>>, n: nat, enabled: bool) -> CfgScan
    decreases n,
{
    if n == 0 {
        scan_init()
    } else {
        scan_step(scan(ls, (n - 1) as nat, enabled), ls[n - 1], enabled)
    }
}

/// The written lines: when no setting was replaced, it goes right after the
/// last `[General]` header, or a `[General]` section is put on top.
pub open spec fn scan_finish(st: CfgScan, enabled: bool) -> Seq<Seq<char>> {
    if st.replaced {
        st.out
    } else {
        match st.general_idx {
            Some(g) => st.out.insert(g + 1, value_line(enabled)),
            None => seq![general_header(), value_line(enabled)] + st.out,
        }
    }
}

/// The config text with the Replay API switched on or off.
pub open spec fn cfg_with_api(text: Seq<char>, enabled: bool) -> Seq<char> {
    let ls = lines(text);
    join_lines(scan_finish(scan(ls, ls.len(), enabled), enabled))
}

/// Whether the reader is inside a `[General]` section before line `n`.
pub open spec fn in_general_before(ls: Seq<Seq<char>>, n: nat) -> bool
    decreases n,
{
    if n == 0 {
        false
    } else if is_header(trim(ls[n - 1])) {
        lower(trim(ls[n - 1])) == general_key()
    } else {
        in_general_before(ls, (n - 1) as nat)
    }
}

/// Every replay-API setting line of the text stands inside a `[General]` section.
pub open spec fn settings_in_general(text: Seq<char>) -> bool {
    let ls = lines(text);
    forall|i: int| 0 <= i < ls.len() && (#[trigger] read_line(ls[i])) is Some ==> in_general_before(ls, i as nat)
}

// ---------------------------------------------------------------------------
// Lemmas on trimming and on how lines are read

/// Number of leading whitespace characters.
pub open spec fn lead_ws(s: Seq<char>) -> nat
    decreases s.len(),
{
    if s.len() > 0 && is_ws(s[0]) {
        1 + lead_ws(s.drop_first())
    } else {
        0
    }
}

proof fn lemma_lead_ws(s: Seq<char>)
    ensures
        lead_ws(s) <= s.len(),
        trim_start(s) == s.skip(lead_ws(s) as int),
        forall|j: int| 0 <= j < lead_ws(s) ==> is_ws(s[j]),
        lead_ws(s) < s.len() ==> !is_ws(s[lead_ws(s) as int]),
    decreases s.len(),
{
    if s.len() > 0 && is_ws(s[0]) {
        lemma_lead_ws(s.drop_first());
        assert(s.skip(lead_ws(s) as int) =~= s.drop_first().skip(lead_ws(s.drop_first()) as int));
        assert forall|j: int| 0 <= j < lead_ws(s) implies is_ws(s[j]) by {
            if j > 0 {
                assert(s[j] == s.drop_first()[j - 1]);
            }
        }
        if lead_ws(s) < s.len() {
            assert(s[lead_ws(s) as int] == s.drop_first()[lead_ws(s.drop_first()) as int]);
        }
    } else {
        assert(s.skip(0) =~= s);
    }
}

proof fn lemma_trim_end_prefix(y: Seq<char>)
    ensures
        trim_end(y).len() <= y.len(),
        trim_end(y) == y.take(trim_end(y).len() as int),
        forall|j: int| 0 <= j < y.len() && !is_ws(y[j]) ==> j < trim_end(y).len(),
    decreases y.len(),
{
    if y.len() > 0 && is_ws(y.last()) {
        lemma_trim_end_prefix(y.drop_last());
        assert(y.drop_last().take(trim_end(y).len() as int) =~= y.take(trim_end(y).len() as int));
        assert forall|j: int| 0 <= j < y.len() && !is_ws(y[j]) implies j < trim_end(y).len() by {
            assert(j < y.len() - 1);
            assert(y.drop_last()[j] == y[j]);
        }
    } else {
        assert(y.take(y.len() as int) =~= y);
    }
}

/// A key whose characters are neither whitespace nor `;`.
pub open spec fn plain_key(p: Seq<char>) -> bool {
    forall|i: int| 0 <= i < p.len() ==> !is_ws(#[trigger] p[i]) && p[i] != ';'
}

proof fn lemma_starts_trim_end(w: Seq<char>, p: Seq<char>)
    requires
        plain_key(p),
    ensures
        starts_with(lower(trim_end(w)), p) == starts_with(lower(w), p),
{
    lemma_trim_end_prefix(w);
    let m = trim_end(w).len() as int;
    if starts_with(lower(w), p) {
        assert forall|j: int| 0 <= j < p.len() implies !is_ws(w[j]) by {
            assert(lower(w)[j] == p[j]);
        }
        if p.len() > 0 {
            assert(!is_ws(w[p.len() - 1]));
        }
        assert(p.len() <= m);
        assert(lower(trim_end(w)).take(p.len() as int) =~= lower(w).take(p.len() as int));
    }
    if starts_with(lower(trim_end(w)), p) {
        assert(lower(trim_end(w)).take(p.len() as int) =~= lower(w).take(p.len() as int));
    }
}

/// Reading a line and testing it for the setting name agree on whether the
/// `;` comment is cut off first.
proof fn lemma_key_view(l: Seq<char>, p: Seq<char>)
    requires
        plain_key(p),
    ensures
        starts_with(lower(trim(l)), p) == starts_with(lower(trim(before_comment(l))), p),
{
    lemma_lead_ws(l);
    let a = lead_ws(l) as int;
    let k = first_index(l, ';') as int;
    lemma_first_index_bounds(l, ';');
    if k < a {
        assert(is_ws(l[k]));
    }
    assert(k >= a);
    let b = l.take(k);
    crate::text::lemma_trim_start_skip(b, a);
    let v = b.skip(a);
    assert(v =~= l.subrange(a, k));
    if a < k {
        assert(v[0] == l[a]);
    }
    assert(trim_start(v) == v);
    assert(trim_start(b) == v);
    let u = l.skip(a);
    lemma_starts_trim_end(u, p);
    lemma_starts_trim_end(v, p);
    if starts_with(lower(u), p) {
        assert forall|j: int| 0 <= j < p.len() implies #[trigger] u[j] != ';' && l[a + j] != ';' by {
            assert(lower(u)[j] == p[j]);
            assert(u[j] == l[a + j]);
        }
        if k < a + p.len() && k < l.len() {
            assert(l[a + (k - a)] == ';');
        }
        assert(k - a >= p.len());
        assert(lower(v).take(p.len() as int) =~= lower(u).take(p.len() as int));
    }
    if starts_with(lower(v), p) {
        assert(lower(v).take(p.len() as int) =~= lower(u).take(p.len() as int));
    }
}

proof fn lemma_api_key_plain()
    ensures
        plain_key(api_key()),
        api_key().len() == 15,
        api_key()[0] == 'e',
{
}

proof fn lemma_header_not_read(l: Seq<char>)
    requires
        is_header(trim(l)),
    ensures
        read_line(l) is None,
{
    lemma_api_key_plain();
    lemma_key_view(l, api_key());
    assert(lower(trim(l))[0] == '[');
    assert(!starts_with(lower(trim(l)), api_key()));
}

proof fn lemma_trim_push_ws(x: Seq<char>, c: char)
    requires
        is_ws(c),
    ensures
        trim(x.push(c)) == trim(x),
{
    lemma_lead_ws(x);
    let a = lead_ws(x) as int;
    if a == x.len() {
        assert forall|j: int| 0 <= j < x.len() + 1 implies is_ws(x.push(c)[j]) by {
            if j < x.len() {
                assert(x.push(c)[j] == x[j]);
            }
        }
        crate::text::lemma_trim_start_skip(x.push(c), (x.len() + 1) as int);
        assert(x.push(c).skip((x.len() + 1) as int).len() == 0);
        assert(x.skip(a).len() == 0);
        assert(trim_start(x.push(c)) =~= x.skip(a));
    } else {
        crate::text::lemma_trim_start_skip(x.push(c), a);
        assert(x.push(c).skip(a) =~= x.skip(a).push(c));
        assert(x.skip(a).push(c)[0] == x[a]);
        assert(trim_start(x.push(c)) == x.skip(a).push(c));
        assert(x.skip(a).push(c).drop_last() =~= x.skip(a));
    }
}

proof fn lemma_read_strip_cr(l: Seq<char>)
    ensures
        read_line(strip_cr(l)) == read_line(l),
{
    if l.len() > 0 && l.last() == '\r' {
        let x = l.drop_last();
        assert(l =~= x.push('\r'));
        lemma_first_index_bounds(x, ';');
        let k = first_index(x, ';') as int;
        if k < x.len() {
            crate::text::lemma_first_index(l, ';', k);
            assert(l.take(k) =~= x.take(k));
        } else {
            crate::text::lemma_first_index(l, ';', l.len() as int);
            assert(l.take(l.len() as int) =~= l);
            assert(x.take(k) =~= x);
            lemma_trim_push_ws(x, '\r');
        }
    }
}

proof fn lemma_lines_no_nl(s: Seq<char>)
    ensures
        forall|i: int, j: int|
            0 <= i < lines(s).len() && 0 <= j < lines(s)[i].len() ==> lines(s)[i][j] != '\n',
    decreases s.len(),
{
    if s.len() > 0 {
        lemma_first_index_bounds(s, '\n');
        let k = first_index(s, '\n');
        if k < s.len() {
            lemma_lines_no_nl(s.skip((k + 1) as int));
            assert forall|i: int, j: int|
                0 <= i < lines(s).len() && 0 <= j < lines(s)[i].len() implies lines(s)[i][j] != '\n' by {
                if i > 0 {
                    assert(lines(s)[i] == lines(s.skip((k + 1) as int))[i - 1]);
                } else {
                    assert(lines(s)[0] == strip_cr(s.take(k as int)));
                }
            }
        }
    }
}

/// No line holds a line feed.
pub open spec fn no_newlines(ls: Seq<Seq<char>>) -> bool {
    forall|i: int, j: int| 0 <= i < ls.len() && 0 <= j < ls[i].len() ==> ls[i][j] != '\n'
}

proof fn lemma_read_empty()
    ensures
        read_line(seq![]) is None,
{
    let e: Seq<char> = seq![];
    assert(first_index(e, ';') == 0);
    assert(before_comment(e) =~= e);
    assert(trim(e) == e);
    assert(lower(e).len() == 0);
}

proof fn lemma_read_join(ls: Seq<Seq<char>>)
    requires
        no_newlines(ls),
    ensures
        read_lines(lines(join_lines(ls))) == read_lines(ls),
    decreases ls.len(),
{
    if ls.len() == 1 {
        let a = ls[0];
        assert(join_lines(ls) == a);
        assert(ls.drop_first().len() == 0);
        assert(read_lines(ls) == match read_line(a) {
            Some(on) => on,
            None => read_lines(ls.drop_first()),
        });
        if a.len() == 0 {
            lemma_read_empty();
            assert(lines(a).len() == 0);
        } else {
            crate::text::lemma_first_index(a, '\n', a.len() as int);
            assert(lines(a) == seq![a]);
            assert(ls =~= seq![a]);
        }
    } else if ls.len() >= 2 {
        let a = ls[0];
        let rest = ls.drop_first();
        let j = join_lines(rest);
        let s = a + seq!['\n'] + j;
        assert(join_lines(ls) == s);
        assert forall|m: int| 0 <= m < a.len() implies s[m] != '\n' by {
            assert(s[m] == a[m]);
        }
        assert(s[a.len() as int] == '\n');
        crate::text::lemma_first_index(s, '\n', a.len() as int);
        assert(s.take(a.len() as int) =~= a);
        assert(s.skip((a.len() + 1) as int) =~= j);
        assert(lines(s) == seq![strip_cr(a)] + lines(j));
        lemma_read_strip_cr(a);
        assert(no_newlines(rest)) by {
            assert forall|i: int, m: int| 0 <= i < rest.len() && 0 <= m < rest[i].len() implies rest[i][m]
                != '\n' by {
                assert(rest[i] == ls[i + 1]);
            }
        }
        lemma_read_join(rest);
        assert((seq![strip_cr(a)] + lines(j)).drop_first() =~= lines(j));
        assert((seq![strip_cr(a)] + lines(j))[0] == strip_cr(a));
        assert(read_lines(lines(s)) == match read_line(strip_cr(a)) {
            Some(on) => on,
            None => read_lines(lines(j)),
        });
        assert(read_lines(ls) == match read_line(a) {
            Some(on) => on,
            None => read_lines(rest),
        });
    }
}

proof fn lemma_read_uniform(ls: Seq<Seq<char>>, on: bool)
    requires
        forall|i: int| 0 <= i < ls.len() && (#[trigger] read_line(ls[i])) is Some ==> read_line(ls[i]) == Some(on),
        exists|i: int| 0 <= i < ls.len() && (#[trigger] read_line(ls[i])) is Some,
    ensures
        read_lines(ls) == on,
    decreases ls.len(),
{
    if read_line(ls[0]) is None {
        let i = choose|i: int| 0 <= i < ls.len() && (#[trigger] read_line(ls[i])) is Some;
        assert(i > 0);
        let rest = ls.drop_first();
        assert(read_line(rest[i - 1]) is Some);
        assert forall|m: int| 0 <= m < rest.len() && (#[trigger] read_line(rest[m])) is Some implies read_line(
            rest[m],
        ) == Some(on) by {
            assert(rest[m] == ls[m + 1]);
        }
        lemma_read_uniform(rest, on);
    }
}

proof fn lemma_read_value_line(on: bool)
    ensures
        read_line(value_line(on)) == Some(on),
        forall|j: int| 0 <= j < value_line(on).len() ==> value_line(on)[j] != '\n',
{
    let v = value_line(on);
    crate::text::lemma_first_index(v, ';', 17);
    assert(v.take(17) =~= v);
    assert(trim_start(v) == v);
    assert(trim_end(v) == v);
    assert(lower(v).take(15) =~= api_key());
    crate::text::lemma_first_index(v, '=', 15);
    let d = v.skip(16);
    assert(d =~= seq![v[16]]);
    assert(trim_start(d) == d);
    assert(trim_end(d) == d);
    assert(lower(d) =~= seq![v[16]]);
    if !on {
        assert(lower(d) != seq!['t', 'r', 'u', 'e']);
    }
}

#[verifier::rlimit(40)]
proof fn lemma_read_general_header()
    ensures
        read_line(general_header()) is None,
        forall|j: int| 0 <= j < general_header().len() ==> general_header()[j] != '\n',
{
    let h = general_header();
    assert(h.len() == 9);
    assert(forall|j: int| 0 <= j < 9 ==> h[j] != ';' && h[j] != '\n');
    crate::text::lemma_first_index(h, ';', 9);
    assert(h.take(9) =~= h);
    assert(!is_ws(h[0]));
    assert(trim_start(h) == h);
    assert(h.last() == ']');
    assert(trim_end(h) == h);
    assert(lower(h)[0] == '[');
    assert(!starts_with(lower(h), api_key()));
}

/// What holds of the writer's state after `n` lines when every setting
/// line so far stood in a `[General]` section.
proof fn lemma_scan(ls: Seq<Seq<char>>, n: nat, on: bool)
    requires
        n <= ls.len(),
        no_newlines(ls),
        forall|i: int| 0 <= i < n && (#[trigger] read_line(ls[i])) is Some ==> in_general_before(ls, i as nat),
    ensures
        ({
            let st = scan(ls, n, on);
            &&& forall|j: int| 0 <= j < st.out.len() && (#[trigger] read_line(st.out[j])) is Some
                ==> read_line(st.out[j]) == Some(on)
            &&& st.replaced ==> exists|j: int| 0 <= j < st.out.len() && (#[trigger] read_line(st.out[j])) is Some
            &&& !st.replaced ==> forall|j: int| 0 <= j < st.out.len() ==> (#[trigger] read_line(st.out[j])) is None
            &&& st.in_general == in_general_before(ls, n)
            &&& (st.general_idx matches Some(g) ==> 0 <= g < st.out.len())
            &&& no_newlines(st.out)
        }),
    decreases n,
{
    lemma_read_value_line(on);
    if n > 0 {
        lemma_scan(ls, (n - 1) as nat, on);
        let st = scan(ls, (n - 1) as nat, on);
        let l = ls[n - 1];
        let t = trim(l);
        let st2 = scan(ls, n, on);
        assert(st2 == scan_step(st, l, on));
        lemma_api_key_plain();
        lemma_key_view(l, api_key());
        if is_header(t) {
            lemma_header_not_read(l);
            let out1 = if st.in_general && !st.replaced {
                st.out.push(value_line(on))
            } else {
                st.out
            };
            assert(st2.out == out1.push(l));
            assert forall|j: int| 0 <= j < st2.out.len() && (#[trigger] read_line(st2.out[j])) is Some
                implies read_line(st2.out[j]) == Some(on) by {
                if j < st.out.len() {
                    assert(st2.out[j] == st.out[j]);
                }
            }
            if st2.replaced {
                if st.replaced {
                    let w = choose|j: int| 0 <= j < st.out.len() && (#[trigger] read_line(st.out[j])) is Some;
                    assert(st2.out[w] == st.out[w]);
                } else {
                    assert(st2.out[st.out.len() as int] == value_line(on));
                }
            } else {
                assert forall|j: int| 0 <= j < st2.out.len() implies (#[trigger] read_line(st2.out[j])) is None by {
                    if j < st.out.len() {
                        assert(st2.out[j] == st.out[j]);
                    }
                }
            }
            assert(no_newlines(st2.out)) by {
                assert forall|i: int, j: int| 0 <= i < st2.out.len() && 0 <= j < st2.out[i].len() implies st2.out[i][j] != '\n' by {
                    if i < st.out.len() {
                        assert(st2.out[i] == st.out[i]);
                    } else if i == st2.out.len() - 1 {
                        assert(st2.out[i] == ls[n - 1]);
                    }
                }
            }
        } else if st.in_general && starts_with(lower(t), api_key()) {
            assert(st2.out == st.out.push(value_line(on)));
            assert forall|j: int| 0 <= j < st2.out.len() && (#[trigger] read_line(st2.out[j])) is Some
                implies read_line(st2.out[j]) == Some(on) by {
                if j < st.out.len() {
                    assert(st2.out[j] == st.out[j]);
                }
            }
            assert(st2.out[st.out.len() as int] == value_line(on));
            assert(no_newlines(st2.out)) by {
                assert forall|i: int, j: int| 0 <= i < st2.out.len() && 0 <= j < st2.out[i].len() implies st2.out[i][j] != '\n' by {
                    if i < st.out.len() {
                        assert(st2.out[i] == st.out[i]);
                    }
                }
            }
        } else {
            assert(st2.out == st.out.push(l));
            if read_line(l) is Some {
                assert(read_line(ls[n - 1]) is Some);
                assert(in_general_before(ls, (n - 1) as nat));
                assert(false);
            }
            assert forall|j: int| 0 <= j < st2.out.len() && (#[trigger] read_line(st2.out[j])) is Some
                implies read_line(st2.out[j]) == Some(on) by {
                if j < st.out.len() {
                    assert(st2.out[j] == st.out[j]);
                }
            }
            if st2.replaced {
                let w = choose|j: int| 0 <= j < st.out.len() && (#[trigger] read_line(st.out[j])) is Some;
                assert(st2.out[w] == st.out[w]);
            } else {
                assert forall|j: int| 0 <= j < st2.out.len() implies (#[trigger] read_line(st2.out[j])) is None by {
                    if j < st.out.len() {
                        assert(st2.out[j] == st.out[j]);
                    }
                }
            }
            assert(no_newlines(st2.out)) by {
                assert forall|i: int, j: int| 0 <= i < st2.out.len() && 0 <= j < st2.out[i].len() implies st2.out[i][j] != '\n' by {
                    if i < st.out.len() {
                        assert(st2.out[i] == st.out[i]);
                    } else {
                        assert(st2.out[i] == ls[n - 1]);
                    }
                }
            }
        }
    }
}

/// Switching the Replay API on or off and reading the written text back
/// gives the value that was written, for every config text whose setting
/// lines all stand inside `[General]` sections (a setting line outside
/// them is read first but is not rewritten).
pub proof fn lemma_write_then_read(text: Seq<char>, on: bool)
    requires
        settings_in_general(text),
    ensures
        cfg_enabled(cfg_with_api(text, on)) == on,
{
    let ls = lines(text);
    lemma_lines_no_nl(text);
    lemma_scan(ls, ls.len(), on);
    lemma_read_value_line(on);
    lemma_read_general_header();
    let st = scan(ls, ls.len(), on);
    let fin = scan_finish(st, on);
    if !st.replaced {
        match st.general_idx {
            Some(g) => {
                assert(fin == st.out.insert(g + 1, value_line(on)));
                assert(fin[g + 1] == value_line(on));
                assert forall|j: int| 0 <= j < fin.len() && (#[trigger] read_line(fin[j])) is Some
                    implies read_line(fin[j]) == Some(on) by {
                    if j <= g {
                        assert(fin[j] == st.out[j]);
                    } else if j > g + 1 {
                        assert(fin[j] == st.out[j - 1]);
                    }
                }
                assert(no_newlines(fin)) by {
                    assert forall|i: int, j: int| 0 <= i < fin.len() && 0 <= j < fin[i].len() implies fin[i][j] != '\n' by {
                        if i <= g {
                            assert(fin[i] == st.out[i]);
                        } else if i > g + 1 {
                            assert(fin[i] == st.out[i - 1]);
                        }
                    }
                }
            },
            None => {
                let top = seq![general_header(), value_line(on)];
                assert(fin == top + st.out);
                assert(fin[1] == value_line(on));
                assert(fin[0] == general_header());
                assert forall|j: int| 0 <= j < fin.len() && (#[trigger] read_line(fin[j])) is Some
                    implies read_line(fin[j]) == Some(on) by {
                    if j >= 2 {
                        assert(fin[j] == st.out[j - 2]);
                    }
                }
                assert(no_newlines(fin)) by {
                    assert forall|i: int, j: int| 0 <= i < fin.len() && 0 <= j < fin[i].len() implies fin[i][j] != '\n' by {
                        if i >= 2 {
                            assert(fin[i] == st.out[i - 2]);
                        }
                    }
                }
            },
        }
        assert(read_line(fin[1]) is Some || read_line(fin[st.general_idx.unwrap() + 1]) is Some);
    }
    lemma_read_join(fin);
    lemma_read_uniform(fin, on);
}

// ---------------------------------------------------------------------------
// What writing keeps

/// A line the writer treats as the setting: its trimmed, lower-cased text
/// starts with `enablereplayapi`.
pub open spec fn is_setting_line(l: Seq<char>) -> bool {
    starts_with(lower(trim(l)), api_key())
}

/// A `[General]` header line (any ASCII case, surrounding whitespace allowed).
pub open spec fn is_general_line(l: Seq<char>) -> bool {
    is_header(trim(l)) && lower(trim(l)) == general_key()
}

/// Whether some line is a `[General]` header.
pub open spec fn has_general(ls: Seq<Seq<char>>) -> bool {
    exists|i: int| 0 <= i < ls.len() && #[trigger] is_general_line(ls[i])
}

/// The lines that are not setting lines, in order.
pub open spec fn other_lines(ls: Seq<Seq<char>>) -> Seq<Seq<char>>
    decreases ls.len(),
{
    if ls.len() == 0 {
        seq![]
    } else if is_setting_line(ls.last()) {
        other_lines(ls.drop_last())
    } else {
        other_lines(ls.drop_last()).push(ls.last())
    }
}

/// The lines written for a config text, which are joined with line feeds.
pub open spec fn written_lines(text: Seq<char>, enabled: bool) -> Seq<Seq<char>> {
    let ls = lines(text);
    scan_finish(scan(ls, ls.len(), enabled), enabled)
}

proof fn lemma_other_push(s: Seq<Seq<char>>, x: Seq<char>)
    ensures
        other_lines(s.push(x)) == if is_setting_line(x) {
            other_lines(s)
        } else {
            other_lines(s).push(x)
        },
{
    assert(s.push(x).drop_last() =~= s);
}

proof fn lemma_other_concat(a: Seq<Seq<char>>, b: Seq<Seq<char>>)
    ensures
        other_lines(a + b) == other_lines(a) + other_lines(b),
    decreases b.len(),
{
    if b.len() == 0 {
        assert(a + b =~= a);
        assert(other_lines(a) + other_lines(b) =~= other_lines(a));
    } else {
        lemma_other_concat(a, b.drop_last());
        assert((a + b).drop_last() =~= a + b.drop_last());
        assert((a + b).last() == b.last());
        if !is_setting_line(b.last()) {
            assert(other_lines(a) + other_lines(b.drop_last()).push(b.last()) =~= (other_lines(a)
                + other_lines(b.drop_last())).push(b.last()));
        }
    }
}

proof fn lemma_other_insert_setting(s: Seq<Seq<char>>, k: int, v: Seq<char>)
    requires
        0 <= k <= s.len(),
        is_setting_line(v),
    ensures
        other_lines(s.insert(k, v)) == other_lines(s),
{
    let a = s.take(k);
    let b = s.skip(k);
    assert(s =~= a + b);
    assert(s.insert(k, v) =~= a.push(v) + b);
    lemma_other_concat(a, b);
    lemma_other_concat(a.push(v), b);
    lemma_other_push(a, v);
}

proof fn lemma_value_line_is_setting(on: bool)
    ensures
        is_setting_line(value_line(on)),
        !is_setting_line(general_header()),
        is_general_line(general_header()),
{
    lemma_read_value_line(on);
    let v = value_line(on);
    lemma_api_key_plain();
    lemma_key_view(v, api_key());
    lemma_read_general_header();
    let h = general_header();
    assert(trim(h) == h) by {
        assert(!is_ws(h[0]));
        assert(trim_start(h) == h);
        assert(h.last() == ']');
        assert(trim_end(h) == h);
    }
    assert(lower(h) =~= general_key());
    assert(lower(h)[0] == '[');
}

proof fn lemma_header_not_setting(l: Seq<char>)
    requires
        is_header(trim(l)),
    ensures
        !is_setting_line(l),
{
    lemma_api_key_plain();
    assert(lower(trim(l))[0] == '[');
}

/// What the writer keeps after `n` lines: the other lines of those `n`, in
/// order; and it knows a `[General]` header exactly when one was among them.
proof fn lemma_scan_keeps(ls: Seq<Seq<char>>, n: nat, on: bool)
    requires
        n <= ls.len(),
    ensures
        ({
            let st = scan(ls, n, on);
            &&& other_lines(st.out) == other_lines(ls.take(n as int))
            &&& (st.general_idx is Some <==> has_general(ls.take(n as int)))
            &&& (st.in_general ==> st.general_idx is Some)
            &&& (st.replaced ==> st.general_idx is Some)
            &&& (st.general_idx matches Some(g) ==> 0 <= g < st.out.len())
        }),
    decreases n,
{
    lemma_value_line_is_setting(on);
    if n == 0 {
        assert(ls.take(0) =~= Seq::<Seq<char>>::empty());
    } else {
        let m = (n - 1) as nat;
        lemma_scan_keeps(ls, m, on);
        let st = scan(ls, m, on);
        let l = ls[m as int];
        let t = trim(l);
        let st2 = scan(ls, n, on);
        assert(st2 == scan_step(st, l, on));
        let pre = ls.take(m as int);
        assert(ls.take(n as int) =~= pre.push(l));
        lemma_other_push(pre, l);
        if is_header(t) {
            lemma_header_not_setting(l);
            let out1 = if st.in_general && !st.replaced {
                st.out.push(value_line(on))
            } else {
                st.out
            };
            lemma_other_push(st.out, value_line(on));
            assert(other_lines(out1) == other_lines(st.out));
            assert(st2.out == out1.push(l));
            lemma_other_push(out1, l);
            if is_general_line(l) {
                assert(pre.push(l)[m as int] == l);
            } else {
                if has_general(pre.push(l)) {
                    let i = choose|i: int| 0 <= i < pre.push(l).len() && #[trigger] is_general_line(pre.push(l)[i]);
                    assert(i < m);
                    assert(pre[i] == pre.push(l)[i]);
                }
                if has_general(pre) {
                    let i = choose|i: int| 0 <= i < pre.len() && #[trigger] is_general_line(pre[i]);
                    assert(pre.push(l)[i] == pre[i]);
                }
            }
        } else {
            assert(!is_general_line(l));
            if has_general(pre.push(l)) {
                let i = choose|i: int| 0 <= i < pre.push(l).len() && #[trigger] is_general_line(pre.push(l)[i]);
                assert(i < m);
                assert(pre[i] == pre.push(l)[i]);
            }
            if has_general(pre) {
                let i = choose|i: int| 0 <= i < pre.len() && #[trigger] is_general_line(pre[i]);
                assert(pre.push(l)[i] == pre[i]);
            }
            if st.in_general && starts_with(lower(t), api_key()) {
                assert(st2.out == st.out.push(value_line(on)));
                lemma_other_push(st.out, value_line(on));
            } else {
                assert(st2.out == st.out.push(l));
                lemma_other_push(st.out, l);
            }
        }
    }
}

/// Switching the Replay API on or off keeps every other line: the text
/// written is its lines joined with line feeds, and apart from the
/// setting lines those are the lines of the old text, in the same order,
/// with a `[General]` header on top when the old text had none.
pub proof fn lemma_write_keeps_other_lines(text: Seq<char>, on: bool)
    ensures
        cfg_with_api(text, on) == join_lines(written_lines(text, on)),
        other_lines(written_lines(text, on)) == if has_general(lines(text)) {
            other_lines(lines(text))
        } else {
            seq![general_header()] + other_lines(lines(text))
        },
{
    let ls = lines(text);
    lemma_scan_keeps(ls, ls.len(), on);
    lemma_value_line_is_setting(on);
    assert(ls.take(ls.len() as int) =~= ls);
    let st = scan(ls, ls.len(), on);
    let fin = written_lines(text, on);
    if !st.replaced {
        match st.general_idx {
            Some(g) => {
                lemma_other_insert_setting(st.out, g + 1, value_line(on));
            },
            None => {
                let top = seq![general_header(), value_line(on)];
                lemma_other_concat(top, st.out);
                assert(top =~= seq![general_header()].push(value_line(on)));
                lemma_other_push(seq![general_header()], value_line(on));
                assert(seq![general_header()] =~= Seq::<Seq<char>>::empty().push(general_header()));
                lemma_other_push(Seq::<Seq<char>>::empty(), general_header());
                assert(other_lines(Seq::<Seq<char>>::empty()) =~= Seq::<Seq<char>>::empty());
            },
        }
    }
}

// ---------------------------------------------------------------------------
// Executable reading and writing

fn api_key_vec() -> (v: Vec<char>)
    ensures
        v@ == api_key(),
{
    let v = vec!['e', 'n', 'a', 'b', 'l', 'e', 'r', 'e', 'p', 'l', 'a', 'y', 'a', 'p', 'i'];
    assert(v@ =~= api_key());
    v
}

fn starts_with_vec(v: &Vec<char>, p: &Vec<char>) -> (b: bool)
    ensures
        b == starts_with(v@, p@),
{
    if p.len() > v.len() {
        return false;
    }
    let head = slice(v, 0, p.len());
    eq_chars(&head, p)
}

fn value_is_on_vec(v: &Vec<char>) -> (b: bool)
    ensures
        b == value_is_on(v@),
{
    let low = lower_vec(v);
    let one = vec!['1'];
    let tru = vec!['t', 'r', 'u', 'e'];
    assert(one@ =~= seq!['1']);
    assert(tru@ =~= seq!['t', 'r', 'u', 'e']);
    eq_chars(&low, &one) || eq_chars(&low, &tru)
}

fn read_line_vec(l: &Vec<char>) -> (r: Option<bool>)
    ensures
        r == read_line(l@),
{
    let k = find_from(l, 0, ';');
    assert(l@.skip(0) =~= l@);
    let pre = slice(l, 0, k);
    assert(pre@ =~= before_comment(l@));
    let t = trim_vec(&pre);
    let low = lower_vec(&t);
    let key = api_key_vec();
    if !starts_with_vec(&low, &key) {
        return None;
    }
    let e = find_from(&t, 0, '=');
    assert(t@.skip(0) =~= t@);
    let value: Vec<char> = if e < t.len() {
        let rest = slice(&t, e + 1, t.len());
        assert(rest@ =~= t@.skip(e + 1));
        trim_vec(&rest)
    } else {
        Vec::new()
    };
    assert(value@ =~= setting_value(t@));
    Some(value_is_on_vec(&value))
}

proof fn lemma_read_lines_skip(ls: Seq<Seq<char>>, i: int)
    requires
        0 <= i < ls.len(),
        read_line(ls[i]) is None,
    ensures
        read_lines(ls.skip(i)) == read_lines(ls.skip(i + 1)),
{
    assert(ls.skip(i).drop_first() =~= ls.skip(i + 1));
    assert(ls.skip(i)[0] == ls[i]);
}

/// Whether a `game.cfg` text enables the Replay API: the first line whose
/// text before any `;` starts, trimmed, with `EnableReplayApi` (in any
/// case) decides, and it enables the API when its value after `=` is `1`
/// or `true`.
pub fn is_enabled_in(text: &str) -> (on: bool)
    ensures
        on == cfg_enabled(text@),
{
    let v = chars_of(text);
    let ls = lines_vec(&v);
    let ghost views = ls@.map_values(|p: Vec<char>| p@);
    assert(views.skip(0) =~= views);
    for i in 0..ls.len()
        invariant
            views == ls@.map_values(|p: Vec<char>| p@),
            views == lines(v@),
            v@ == text@,
            read_lines(views) == read_lines(views.skip(i as int)),
    {
        assert(views[i as int] == ls@[i as int]@);
        match read_line_vec(&ls[i]) {
            Some(on) => {
                assert(views.skip(i as int)[0] == views[i as int]);
                return on;
            },
            None => {
                proof {
                    lemma_read_lines_skip(views, i as int);
                }
            },
        }
    }
    assert(views.skip(ls.len() as int).len() == 0);
    false
}

fn value_line_vec(enabled: bool) -> (v: Vec<char>)
    ensures
        v@ == value_line(enabled),
{
    let d: char = if enabled {
        '1'
    } else {
        '0'
    };
    let v = vec!['E', 'n', 'a', 'b', 'l', 'e', 'R', 'e', 'p', 'l', 'a', 'y', 'A', 'p', 'i', '=', d];
    assert(v@ =~= value_line(enabled));
    v
}

fn general_key_vec() -> (v: Vec<char>)
    ensures
        v@ == general_key(),
{
    let v = vec!['[', 'g', 'e', 'n', 'e', 'r', 'a', 'l', ']'];
    assert(v@ =~= general_key());
    v
}

proof fn lemma_join_push(ls: Seq<Seq<char>>, x: Seq<char>)
    requires
        ls.len() >= 1,
    ensures
        join_lines(ls.push(x)) == join_lines(ls) + seq!['\n'] + x,
    decreases ls.len(),
{
    if ls.len() == 1 {
        assert(ls.push(x).drop_first() =~= seq![x]);
        assert(join_lines(seq![x]) == x);
        assert(ls.push(x)[0] == ls[0]);
        assert(join_lines(ls) == ls[0]);
    } else {
        lemma_join_push(ls.drop_first(), x);
        assert(ls.push(x).drop_first() =~= ls.drop_first().push(x));
        assert(ls.push(x)[0] == ls[0]);
        assert(join_lines(ls.push(x)) =~= ls[0] + seq!['\n'] + (join_lines(ls.drop_first()) + seq!['\n'] + x));
        assert(join_lines(ls) + seq!['\n'] + x =~= ls[0] + seq!['\n'] + (join_lines(ls.drop_first()) + seq!['\n'] + x));
    }
}

/// The lines joined by `\n`, as written back to the file.
pub fn join_lines_vec(ls: &Vec<Vec<char>>) -> (r: Vec<char>)
    ensures
        r@ == join_lines(ls@.map_values(|p: Vec<char>| p@)),
{
    let ghost views = ls@.map_values(|p: Vec<char>| p@);
    let mut r: Vec<char> = Vec::new();
    for i in 0..ls.len()
        invariant
            views == ls@.map_values(|p: Vec<char>| p@),
            r@ == join_lines(views.take(i as int)),
    {
        proof {
            if i > 0 {
                lemma_join_push(views.take(i as int), views[i as int]);
            }
            assert(views.take(i + 1) =~= views.take(i as int).push(views[i as int]));
        }
        if i > 0 {
            r.push('\n');
        }
        push_all(&mut r, &ls[i]);
        assert(r@ =~= join_lines(views.take(i + 1)));
    }
    assert(views.take(ls.len() as int) =~= views);
    r
}

/// A `game.cfg` text with the Replay API switched on or off: inside the
/// `[General]` section every `EnableReplayApi` line becomes
/// `EnableReplayApi=1` (or `=0`); when the section has none, the line is
/// added at its end, and when there is no `[General]` section, one is put
/// at the top.  Lines are joined with `\n`, without a final newline.
pub fn set_enabled_in(text: &str, enabled: bool) -> (r: String)
    ensures
        r@ == cfg_with_api(text@, enabled),
{
    let v = chars_of(text);
    let ls = lines_vec(&v);
    let ghost views = ls@.map_values(|p: Vec<char>| p@);
    let key = api_key_vec();
    let gkey = general_key_vec();
    let mut out: Vec<Vec<char>> = Vec::new();
    let mut in_general = false;
    let mut replaced = false;
    let mut general_idx: Option<usize> = None;
    for i in 0..ls.len()
        invariant
            views == ls@.map_values(|p: Vec<char>| p@),
            views == lines(v@),
            key@ == api_key(),
            gkey@ == general_key(),
            ({
                let st = scan(views, i as nat, enabled);
                &&& st.out == out@.map_values(|p: Vec<char>| p@)
                &&& st.in_general == in_general
                &&& st.replaced == replaced
                &&& st.general_idx == match general_idx {
                    Some(g) => Some(g as int),
                    None => None::<int>,
                }
                &&& match general_idx {
                    Some(g) => g < out.len(),
                    None => true,
                }
            }),
    {
        let ghost before = out@.map_values(|p: Vec<char>| p@);
        assert(views[i as int] == ls@[i as int]@);
        let stripped = trim_vec(&ls[i]);
        let low = lower_vec(&stripped);
        let n: usize = stripped.len();
        if n > 0 && stripped[0] == '[' && stripped[n - 1] == ']' {
            if in_general && !replaced {
                out.push(value_line_vec(enabled));
                replaced = true;
            }
            in_general = eq_chars(&low, &gkey);
            if in_general {
                general_idx = Some(out.len());
            }
            out.push(ls[i].clone());
            assert(out@.map_values(|p: Vec<char>| p@) =~= scan(views, (i + 1) as nat, enabled).out);
        } else if in_general && starts_with_vec(&low, &key) {
            out.push(value_line_vec(enabled));
            replaced = true;
            assert(out@.map_values(|p: Vec<char>| p@) =~= before.push(value_line(enabled)));
        } else {
            out.push(ls[i].clone());
            assert(out@.map_values(|p: Vec<char>| p@) =~= before.push(views[i as int]));
        }
    }
    let ghost st = scan(views, views.len(), enabled);
    if !replaced {
        match general_idx {
            Some(g) => {
                let ghost before = out@.map_values(|p: Vec<char>| p@);
                out.insert(g + 1, value_line_vec(enabled));
                assert(out@.map_values(|p: Vec<char>| p@) =~= before.insert(
                    g + 1,
                    value_line(enabled),
                ));
            },
            None => {
                let ghost before = out@.map_values(|p: Vec<char>| p@);
                let header = vec!['[', 'G', 'e', 'n', 'e', 'r', 'a', 'l', ']'];
                assert(header@ =~= general_header());
                out.insert(0, header);
                out.insert(1, value_line_vec(enabled));
                assert(out@.map_values(|p: Vec<char>| p@) =~= seq![
                    general_header(),
                    value_line(enabled),
                ] + before);
            },
        }
    }
    assert(out@.map_values(|p: Vec<char>| p@) == scan_finish(st, enabled));
    let joined = join_lines_vec(&out);
    string_of(&joined)
}

} // verus!
