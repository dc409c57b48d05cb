//! The knobs file: the few numbers the model carries that it could not
//! measure on a die, each with where it came from, one file per bench
//! run.
//!
//! Every table names its `source` (`measured`, `authored` or `fitted`)
//! and `by` (the run stamp, the probe or the document that set it), so a
//! report can say which of its figures rest on a fitted number; a
//! `fitted` table must carry its `residual`. A table or key this reader
//! does not know is refused by name, so a typo cannot run the defaults
//! in silence, and a table the model does not act on (the bench's
//! `[capture]`) is known and kept, not acted on. The file is the flat
//! subset of TOML the bench writes: `[table]`, `key = value`, strings in
//! double quotes, integers, floats, `true`/`false`, `#` comments;
//! nothing else parses.
//!
//! Tables today: `[alignment]` (`cpu_phase`, `ppu_phase`: the console's
//! power-on alignment), `[capture]` (`scale_v_per_div`, `offset_v`,
//! `channel`: the bench's scope window, kept) and `[ram]` (`fill`, or
//! `seed`: the work RAM's power-on contents, a byte everywhere or a
//! pattern from a 32-bit xorshift seed), `[warmth]` (`seconds_on`: how
//! long the console had been on, zero or more) and `[warmth_curve]`
//! (`depth`, `tau_s`: the picture's warm-up, its gain falling from one
//! toward one less the depth with a positive time constant in seconds).
//! The seconds say nothing without the curve, so `[warmth]` alone is
//! refused; the curve alone is kept.
//!
//! A float is kept as the text the file wrote, which the grammar of
//! `f64::from_str` accepts: whoever computes with it reads it there.

use vstd::prelude::*;
use crate::console::{spec_measured, Alignment};
use crate::scan::{
    count, count_char, find, find_char, is_float, is_word, line_ranges, lines, parse_i64, ranges_text, span, span_word,
    spec_i64, trim, trim_range, unsigned,
};
use crate::text::{chars_of, debug_quoted, debug_text, dec, dec_int, push_dec, push_int, push_str, string_of};

verus! {

/// A value as the file writes it.
#[derive(Debug)]
pub enum Value {
    Str(String),
    Int(i64),
    /// A float, as its text.
    Float(String),
    Bool(bool),
}

/// A value's contents.
pub enum ValueView {
    Str(Seq<char>),
    Int(i64),
    Float(Seq<char>),
    Bool(bool),
}

impl View for Value {
    type V = ValueView;

    open spec fn view(&self) -> ValueView {
        match self {
            Value::Str(s) => ValueView::Str(s@),
            Value::Int(i) => ValueView::Int(*i),
            Value::Float(s) => ValueView::Float(s@),
            Value::Bool(b) => ValueView::Bool(*b),
        }
    }
}

/// "line N: ", before each refusal that names its line.
pub open spec fn line_pre(line: nat) -> Seq<char> {
    "line "@ + dec(line) + ": "@
}

/// What the text after a key's `=` is: a string in double quotes (with
/// nothing after it), `true`, `false`, an integer, a float; anything
/// else refused by line.
pub open spec fn spec_value(raw: Seq<char>, line: nat) -> Result<ValueView, Seq<char>> {
    let r = trim(raw);
    if r.len() > 0 && r[0] == '"' {
        let inner = r.drop_first();
        match find(inner, '"') {
            None => Err(line_pre(line) + "unterminated string"@),
            Some(end) => if trim(inner.subrange(end + 1, inner.len() as int)).len() > 0 {
                Err(line_pre(line) + "text after the string"@)
            } else {
                Ok(ValueView::Str(inner.subrange(0, end)))
            },
        }
    } else if r == "true"@ {
        Ok(ValueView::Bool(true))
    } else if r == "false"@ {
        Ok(ValueView::Bool(false))
    } else {
        match spec_i64(r) {
            Some(i) => Ok(ValueView::Int(i)),
            None => if is_float(r) {
                Ok(ValueView::Float(r))
            } else {
                Err(line_pre(line) + debug_text(r) + " is not a string, an integer, a float or a boolean"@)
            },
        }
    }
}

/// What a value is, for a refusal.
pub open spec fn kind_text(v: ValueView) -> Seq<char> {
    match v {
        ValueView::Str(_) => "a string"@,
        ValueView::Int(_) => "an integer"@,
        ValueView::Float(_) => "a float"@,
        ValueView::Bool(_) => "a boolean"@,
    }
}

/// A line without its comment, trimmed: a `#` starts a comment unless
/// an odd number of double quotes stand before it (it is then inside a
/// string, and the line is kept whole).
pub open spec fn content_of(raw: Seq<char>) -> Seq<char> {
    match find(raw, '#') {
        Some(h) => if count(raw.subrange(0, h), '"') % 2 == 0 {
            trim(raw.subrange(0, h))
        } else {
            trim(raw)
        },
        None => trim(raw),
    }
}

/// A table's keys, in order.
pub type KeysView = Seq<(Seq<char>, ValueView)>;

/// The tables, in order.
pub type TablesView = Seq<(Seq<char>, KeysView)>;

/// Some table of `ts` is named `n`.
pub open spec fn has_table(ts: TablesView, n: Seq<char>) -> bool {
    exists|i: int| 0 <= i < ts.len() && (#[trigger] ts[i]).0 == n
}

/// Some key of `ks` is `k`.
pub open spec fn has_key(ks: KeysView, k: Seq<char>) -> bool {
    exists|i: int| 0 <= i < ks.len() && (#[trigger] ks[i]).0 == k
}

/// One line read onto the tables so far (`line` counts from 1): blank
/// and comment lines change nothing, `[name]` begins a table (refused
/// if one of that name exists), `key = value` adds to the last table
/// (refused before any table, or if the key is there already).
pub open spec fn line_step(ts: TablesView, raw: Seq<char>, line: nat) -> Result<TablesView, Seq<char>> {
    let c = content_of(raw);
    if c.len() == 0 {
        Ok(ts)
    } else if c[0] == '[' {
        let rest = c.drop_first();
        if !(rest.len() > 0 && rest.last() == ']') {
            Err(line_pre(line) + "a table header without its ']'"@)
        } else {
            let n = trim(rest.drop_last());
            if has_table(ts, n) {
                Err(line_pre(line) + "table ["@ + n + "] twice"@)
            } else {
                Ok(ts.push((n, Seq::empty())))
            }
        }
    } else {
        match find(c, '=') {
            None => Err(line_pre(line) + "not `key = value`"@),
            Some(e) => {
                let k = trim(c.subrange(0, e));
                if ts.len() == 0 {
                    Err(line_pre(line) + "`"@ + k + "` before any [table]"@)
                } else if has_key(ts.last().1, k) {
                    Err(line_pre(line) + "`"@ + k + "` twice in ["@ + ts.last().0 + "]"@)
                } else {
                    match spec_value(c.subrange(e + 1, c.len() as int), line) {
                        Err(m) => Err(m),
                        Ok(v) => Ok(ts.update(ts.len() - 1, (ts.last().0, ts.last().1.push((k, v))))),
                    }
                }
            },
        }
    }
}

/// The first `n` lines read in order: the tables, or the first refusal.
pub open spec fn tables_upto(ls: Seq<Seq<char>>, n: int) -> Result<TablesView, Seq<char>>
    decreases n,
{
    if n <= 0 {
        Ok(Seq::empty())
    } else {
        match tables_upto(ls, n - 1) {
            Err(m) => Err(m),
            Ok(ts) => line_step(ts, ls[n - 1], n as nat),
        }
    }
}

/// The file as tables of keys, in order; a duplicate table or key, and
/// any line that is none of the shapes, refused.
pub open spec fn spec_tables(text: Seq<char>) -> Result<TablesView, Seq<char>> {
    tables_upto(lines(text), lines(text).len() as int)
}

/// Once the first `k` lines refuse, so do the first `m`.
proof fn lemma_tables_err_sticks(ls: Seq<Seq<char>>, k: int, m: int)
    requires
        0 <= k <= m,
        tables_upto(ls, k) is Err,
    ensures
        tables_upto(ls, m) == tables_upto(ls, k),
    decreases m - k,
{
    if m > k {
        lemma_tables_err_sticks(ls, k, m - 1);
    }
}

/// No two tables share a name, and no table holds a key twice.
pub open spec fn all_distinct(ts: TablesView) -> bool {
    &&& forall|i: int, j: int| 0 <= i < j < ts.len() ==> (#[trigger] ts[i]).0 != (#[trigger] ts[j]).0
    &&& forall|t: int, p: int, q: int|
        0 <= t < ts.len() && 0 <= p < q < ts[t].1.len() ==> (#[trigger] ts[t].1[p]).0 != (#[trigger] ts[t].1[q]).0
}

/// One line read keeps the tables' names and keys distinct.
proof fn lemma_line_step_keeps_distinct(ts: TablesView, raw: Seq<char>, line: nat)
    requires
        all_distinct(ts),
    ensures
        line_step(ts, raw, line) matches Ok(u) ==> all_distinct(u),
{
    let c = content_of(raw);
    if c.len() > 0 && c[0] != '[' {
        if let Some(e) = find(c, '=') {
            let k = trim(c.subrange(0, e));
            if ts.len() > 0 && !has_key(ts.last().1, k) {
                if let Ok(v) = spec_value(c.subrange(e + 1, c.len() as int), line) {
                    let u = ts.update(ts.len() - 1, (ts.last().0, ts.last().1.push((k, v))));
                    assert forall|t: int, p: int, q: int|
                        0 <= t < u.len() && 0 <= p < q < u[t].1.len() implies (#[trigger] u[t].1[p]).0 != (
                        #[trigger] u[t].1[q]).0 by {
                        if t == ts.len() - 1 && q == ts.last().1.len() {
                            assert(u[t].1[p] == ts.last().1[p]);
                        }
                    }
                }
            }
        }
    }
}

/// A file that reads is one where no table is named twice and no key
/// is given twice in one table: a duplicate is refused, never merged.
pub proof fn lemma_tables_are_distinct(text: Seq<char>)
    ensures
        spec_tables(text) matches Ok(ts) ==> all_distinct(ts),
{
    let ls = lines(text);
    lemma_tables_upto_distinct(ls, ls.len() as int);
}

/// The first `n` lines read keep the tables' names and keys distinct.
proof fn lemma_tables_upto_distinct(ls: Seq<Seq<char>>, n: int)
    ensures
        tables_upto(ls, n) matches Ok(ts) ==> all_distinct(ts),
    decreases n,
{
    if n > 0 {
        lemma_tables_upto_distinct(ls, n - 1);
        if let Ok(ts) = tables_upto(ls, n - 1) {
            lemma_line_step_keeps_distinct(ts, ls[n - 1], n as nat);
        }
    }
}

/// A table as the reader holds it.
pub type Table = (String, Vec<(String, Value)>);

/// A table's keys as values.
pub open spec fn keys_view(ks: Seq<(String, Value)>) -> KeysView {
    Seq::new(ks.len(), |i: int| (ks[i].0@, ks[i].1@))
}

/// A table as values.
pub open spec fn table_view(t: Table) -> (Seq<char>, KeysView) {
    (t.0@, keys_view(t.1@))
}

/// The tables as values.
pub open spec fn tables_view(ts: Seq<Table>) -> TablesView {
    Seq::new(ts.len(), |i: int| table_view(ts[i]))
}

/// The tables finished and the one being read.
pub open spec fn state_view(done: Seq<Table>, cur: Option<Table>) -> TablesView {
    match cur {
        Some(t) => tables_view(done).push(table_view(t)),
        None => tables_view(done),
    }
}

/// Whether `a` holds the text `b`.
fn same(a: &String, b: &String) -> (r: bool)
    ensures
        r == (a@ == b@),
{
    a.eq(b)
}

/// `t[a..b]` is the text `w`.
fn span_is(t: &Vec<char>, a: usize, b: usize, w: &str) -> (r: bool)
    requires
        a <= b <= t@.len(),
    ensures
        r == (span(t@, a as int, b as int) == w@),
{
    let wc = chars_of(w);
    if b - a != wc.len() {
        return false;
    }
    let mut i: usize = 0;
    while i < wc.len()
        invariant
            a <= b <= t@.len(),
            b - a == wc@.len(),
            wc@ == w@,
            i <= wc@.len(),
            forall|k: int| 0 <= k < i ==> t@[a + k] == wc@[k],
        decreases wc@.len() - i,
    {
        if t[a + i] != wc[i] {
            assert(span(t@, a as int, b as int)[i as int] != w@[i as int]);
            return false;
        }
        i += 1;
    }
    assert(span(t@, a as int, b as int) =~= w@);
    true
}

/// `t[a..b]` read as a value; see `spec_value`.
fn parse_value(t: &Vec<char>, a: usize, b: usize, line: usize) -> (r: Result<Value, String>)
    requires
        a <= b <= t@.len(),
    ensures
        match (r, spec_value(span(t@, a as int, b as int), line as nat)) {
            (Ok(v), Ok(w)) => v@ == w,
            (Err(e), Err(m)) => e@ == m,
            _ => false,
        },
{
    let ghost raw = span(t@, a as int, b as int);
    let (rs, re) = trim_range(t, a, b);
    assert(trim(raw) == span(t@, rs as int, re as int));
    if rs < re && t[rs] == '"' {
        let ghost inner = trim(raw).drop_first();
        assert(inner =~= span(t@, rs + 1, re as int));
        match find_char(t, rs + 1, re, '"') {
            None => {
                let mut e = String::new();
                push_str(&mut e, "line ");
                push_dec(&mut e, line as u64);
                push_str(&mut e, ": unterminated string");
                proof {
                    reveal_strlit("line ");
                    reveal_strlit(": ");
                    reveal_strlit(": unterminated string");
                    reveal_strlit("unterminated string");
                }
                assert(e@ =~= line_pre(line as nat) + "unterminated string"@);
                return Err(e);
            },
            Some(end) => {
                let (x, y) = trim_range(t, end + 1, re);
                assert(inner.subrange(end - rs, inner.len() as int) =~= span(t@, end + 1, re as int));
                if x < y {
                    let mut e = String::new();
                    push_str(&mut e, "line ");
                    push_dec(&mut e, line as u64);
                    push_str(&mut e, ": text after the string");
                    proof {
                        reveal_strlit("line ");
                        reveal_strlit(": ");
                        reveal_strlit(": text after the string");
                        reveal_strlit("text after the string");
                    }
                    assert(e@ =~= line_pre(line as nat) + "text after the string"@);
                    return Err(e);
                }
                assert(inner.subrange(0, end - rs - 1) =~= span(t@, rs + 1, end as int));
                return Ok(Value::Str(string_of(t, rs + 1, end)));
            },
        }
    }
    if span_is(t, rs, re, "true") {
        return Ok(Value::Bool(true));
    }
    if span_is(t, rs, re, "false") {
        return Ok(Value::Bool(false));
    }
    match parse_i64(t, rs, re) {
        Some(i) => Ok(Value::Int(i)),
        None => {
            if crate::scan::float_text(t, rs, re) {
                Ok(Value::Float(string_of(t, rs, re)))
            } else {
                let text = string_of(t, rs, re);
                let mut e = String::new();
                push_str(&mut e, "line ");
                push_dec(&mut e, line as u64);
                push_str(&mut e, ": ");
                let q = debug_quoted(text.as_str());
                push_str(&mut e, q.as_str());
                push_str(&mut e, " is not a string, an integer, a float or a boolean");
                proof {
                    reveal_strlit("line ");
                    reveal_strlit(": ");
                }
                Err(e)
            }
        },
    }
}

/// The content of the line `t[a..b]` (see `content_of`), as a range.
fn content_range(t: &Vec<char>, a: usize, b: usize) -> (r: (usize, usize))
    requires
        a <= b <= t@.len(),
    ensures
        a <= r.0 <= r.1 <= b,
        span(t@, r.0 as int, r.1 as int) == content_of(span(t@, a as int, b as int)),
{
    let ghost raw = span(t@, a as int, b as int);
    match find_char(t, a, b, '#') {
        Some(h) => {
            let quotes = count_char(t, a, h, '"');
            assert(raw.subrange(0, h - a) =~= span(t@, a as int, h as int));
            if quotes % 2 == 0 {
                trim_range(t, a, h)
            } else {
                trim_range(t, a, b)
            }
        },
        None => trim_range(t, a, b),
    }
}

/// Whether a table of `done` or `cur` is named `name`.
fn table_named(done: &Vec<Table>, cur: &Option<Table>, name: &String) -> (r: bool)
    ensures
        r == has_table(state_view(done@, *cur), name@),
{
    let mut i: usize = 0;
    while i < done.len()
        invariant
            i <= done@.len(),
            forall|k: int| 0 <= k < i ==> (#[trigger] done@[k]).0@ != name@,
        decreases done@.len() - i,
    {
        if same(&done[i].0, name) {
            assert(state_view(done@, *cur)[i as int].0 == name@);
            return true;
        }
        i += 1;
    }
    let found = match cur {
        Some(t) => same(&t.0, name),
        None => false,
    };
    if !found {
        assert forall|k: int| 0 <= k < state_view(done@, *cur).len() implies (#[trigger] state_view(
            done@,
            *cur,
        )[k]).0 != name@ by {
            if k < done@.len() {
                assert(state_view(done@, *cur)[k] == table_view(done@[k]));
            }
        }
    } else {
        assert(state_view(done@, *cur)[done@.len() as int].0 == name@);
    }
    found
}

/// Whether `keys` holds the key `k`.
fn key_in(keys: &Vec<(String, Value)>, k: &String) -> (r: bool)
    ensures
        r == has_key(keys_view(keys@), k@),
{
    let mut i: usize = 0;
    while i < keys.len()
        invariant
            i <= keys@.len(),
            forall|j: int| 0 <= j < i ==> (#[trigger] keys@[j]).0@ != k@,
        decreases keys@.len() - i,
    {
        if same(&keys[i].0, k) {
            assert(keys_view(keys@)[i as int].0 == k@);
            return true;
        }
        i += 1;
    }
    assert forall|j: int| 0 <= j < keys_view(keys@).len() implies (#[trigger] keys_view(keys@)[j]).0 != k@ by {
        assert(keys_view(keys@)[j].0 == keys@[j].0@);
    }
    false
}

/// "line N: " onto a new string.
fn line_prefix(line: usize) -> (e: String)
    ensures
        e@ == line_pre(line as nat),
{
    let mut e = String::new();
    push_str(&mut e, "line ");
    push_dec(&mut e, line as u64);
    push_str(&mut e, ": ");
    e
}

/// The file's characters as tables of keys; see `spec_tables`.
#[verifier::rlimit(40)]
fn parse_tables(t: &Vec<char>) -> (r: Result<Vec<Table>, String>)
    ensures
        match (r, spec_tables(t@)) {
            (Ok(x), Ok(v)) => tables_view(x@) == v,
            (Err(e), Err(m)) => e@ == m,
            _ => false,
        },
{
    let ranges = line_ranges(t);
    let ghost ls = lines(t@);
    let mut done: Vec<Table> = Vec::new();
    let mut cur: Option<Table> = None;
    let mut k: usize = 0;
    assert(tables_view(done@) =~= Seq::<(Seq<char>, KeysView)>::empty());
    while k < ranges.len()
        invariant
            ranges_text(t@, ranges@) == ls,
            ls == lines(t@),
            forall|i: int| 0 <= i < ranges@.len() ==> (#[trigger] ranges@[i]).0 <= ranges@[i].1 <= t@.len(),
            ranges@.len() <= t@.len(),
            k <= ranges@.len(),
            cur is None ==> done@.len() == 0,
            tables_upto(ls, k as int) == Ok::<TablesView, Seq<char>>(state_view(done@, cur)),
        decreases ranges@.len() - k,
    {
        let (ls0, le0) = ranges[k];
        let line = k + 1;
        let ghost ts = state_view(done@, cur);
        assert(ls[k as int] == span(t@, ls0 as int, le0 as int));
        let (cs, ce) = content_range(t, ls0, le0);
        let ghost c = span(t@, cs as int, ce as int);
        if cs == ce {
            assert(c.len() == 0);
            k += 1;
            continue;
        }
        if t[cs] == '[' {
            assert(c.drop_first() =~= span(t@, cs + 1, ce as int));
            if !(ce - cs >= 2 && t[ce - 1] == ']') {
                let mut e = line_prefix(line);
                push_str(&mut e, "a table header without its ']'");
                proof {
                    lemma_tables_err_sticks(ls, k + 1, ls.len() as int);
                }
                return Err(e);
            }
            assert(c.drop_first().drop_last() =~= span(t@, cs + 1, ce - 1));
            let (ns, ne) = trim_range(t, cs + 1, ce - 1);
            let name = string_of(t, ns, ne);
            if table_named(&done, &cur, &name) {
                let mut e = line_prefix(line);
                push_str(&mut e, "table [");
                push_str(&mut e, name.as_str());
                push_str(&mut e, "] twice");
                proof {
                    lemma_tables_err_sticks(ls, k + 1, ls.len() as int);
                }
                return Err(e);
            }
            let ghost name_view = name@;
            match cur {
                Some(c0) => {
                    let ghost before = done@;
                    done.push(c0);
                    assert(tables_view(done@) =~= tables_view(before).push(table_view(c0)));
                },
                None => {},
            }
            cur = Some((name, Vec::new()));
            assert(keys_view(Seq::<(String, Value)>::empty()) =~= Seq::<(Seq<char>, ValueView)>::empty());
            assert(state_view(done@, cur) =~= ts.push((name_view, Seq::empty())));
        } else {
            match find_char(t, cs, ce, '=') {
                None => {
                    let mut e = line_prefix(line);
                    push_str(&mut e, "not `key = value`");
                    proof {
                        lemma_tables_err_sticks(ls, k + 1, ls.len() as int);
                    }
                    return Err(e);
                },
                Some(eq) => {
                    assert(c.subrange(0, eq - cs) =~= span(t@, cs as int, eq as int));
                    assert(c.subrange(eq - cs + 1, c.len() as int) =~= span(t@, eq + 1, ce as int));
                    let (ks, ke) = trim_range(t, cs, eq);
                    let key = string_of(t, ks, ke);
                    match cur {
                        None => {
                            let mut e = line_prefix(line);
                            push_str(&mut e, "`");
                            push_str(&mut e, key.as_str());
                            push_str(&mut e, "` before any [table]");
                            proof {
                                lemma_tables_err_sticks(ls, k + 1, ls.len() as int);
                            }
                            return Err(e);
                        },
                        Some((n, mut keys)) => {
                            assert(ts.last() == table_view((n, keys)));
                            if key_in(&keys, &key) {
                                let mut e = line_prefix(line);
                                push_str(&mut e, "`");
                                push_str(&mut e, key.as_str());
                                push_str(&mut e, "` twice in [");
                                push_str(&mut e, n.as_str());
                                push_str(&mut e, "]");
                                proof {
                                    lemma_tables_err_sticks(ls, k + 1, ls.len() as int);
                                }
                                return Err(e);
                            }
                            let v = match parse_value(t, eq + 1, ce, line) {
                                Ok(v) => v,
                                Err(e) => {
                                    proof {
                                        lemma_tables_err_sticks(ls, k + 1, ls.len() as int);
                                    }
                                    return Err(e);
                                },
                            };
                            let ghost before = keys@;
                            let ghost kv = (key@, v@);
                            keys.push((key, v));
                            assert(keys_view(keys@) =~= keys_view(before).push(kv));
                            cur = Some((n, keys));
                            assert(state_view(done@, cur) =~= ts.update(
                                ts.len() - 1,
                                (ts.last().0, ts.last().1.push(kv)),
                            ));
                        },
                    }
                },
            }
        }
        k += 1;
    }
    match cur {
        Some(c0) => {
            let ghost before = done@;
            done.push(c0);
            assert(tables_view(done@) =~= tables_view(before).push(table_view(c0)));
        },
        None => {},
    }
    Ok(done)
}

// ------------------------------------------------------------ the knobs

/// Where a knob came from.
#[derive(Clone, Copy, PartialEq, Eq, Debug, Structural)]
pub enum SourceKind {
    Measured,
    Authored,
    Fitted,
}

/// A number as the file gives it: an integer, or the text of a float.
#[derive(Clone, Debug, PartialEq, Eq)]
pub enum Number {
    Int(i64),
    Float(String),
}

/// A number's contents.
pub enum NumberView {
    Int(i64),
    Float(Seq<char>),
}

impl View for Number {
    type V = NumberView;

    open spec fn view(&self) -> NumberView {
        match self {
            Number::Int(i) => NumberView::Int(*i),
            Number::Float(s) => NumberView::Float(s@),
        }
    }
}

/// A table's `source`, `by` and, for a fitted one, `residual`.
#[derive(Clone, Debug, PartialEq, Eq)]
pub struct Source {
    pub kind: SourceKind,
    pub by: String,
    /// Required with `Fitted`, refused otherwise.
    pub residual: Option<Number>,
}

/// A source's contents.
pub struct SourceView {
    pub kind: SourceKind,
    pub by: Seq<char>,
    pub residual: Option<NumberView>,
}

/// A number's contents, if there is one.
pub open spec fn opt_number(n: Option<Number>) -> Option<NumberView> {
    match n {
        Some(x) => Some(x@),
        None => None,
    }
}

impl View for Source {
    type V = SourceView;

    open spec fn view(&self) -> SourceView {
        SourceView { kind: self.kind, by: self.by@, residual: opt_number(self.residual) }
    }
}

/// The bench's scope window for the video, kept and not acted on.
#[derive(Clone, Debug, PartialEq, Eq)]
pub struct Capture {
    pub scale_v_per_div: Number,
    pub offset_v: Number,
    pub channel: u8,
    pub source: Source,
}

/// A capture's contents.
pub struct CaptureView {
    pub scale_v_per_div: NumberView,
    pub offset_v: NumberView,
    pub channel: u8,
    pub source: SourceView,
}

impl View for Capture {
    type V = CaptureView;

    open spec fn view(&self) -> CaptureView {
        CaptureView {
            scale_v_per_div: self.scale_v_per_div@,
            offset_v: self.offset_v@,
            channel: self.channel,
            source: self.source@,
        }
    }
}

/// The picture's warm-up: its gain falls from one toward one less
/// `depth`, with time constant `tau_s` seconds.
#[derive(Clone, Debug, PartialEq, Eq)]
pub struct WarmthCurve {
    pub depth: Number,
    pub tau_s: Number,
    pub source: Source,
}

/// A warm-up curve's contents.
pub struct WarmthCurveView {
    pub depth: NumberView,
    pub tau_s: NumberView,
    pub source: SourceView,
}

impl View for WarmthCurve {
    type V = WarmthCurveView;

    open spec fn view(&self) -> WarmthCurveView {
        WarmthCurveView { depth: self.depth@, tau_s: self.tau_s@, source: self.source@ }
    }
}

/// A knobs file read.
#[derive(Clone, Debug, PartialEq, Eq)]
pub struct Knobs {
    pub path: String,
    pub alignment: Option<(Alignment, Source)>,
    pub capture: Option<Capture>,
    pub ram_fill: Option<(u8, Source)>,
    pub ram_seed: Option<(u32, Source)>,
    /// Seconds the console had been on, on the warm-up curve.
    pub warmth: Option<(Number, Source)>,
    pub warmth_curve: Option<WarmthCurve>,
}

/// What a knobs file says.
pub struct KnobsView {
    pub path: Seq<char>,
    pub alignment: Option<(Alignment, SourceView)>,
    pub capture: Option<CaptureView>,
    pub ram_fill: Option<(u8, SourceView)>,
    pub ram_seed: Option<(u32, SourceView)>,
    pub warmth: Option<(NumberView, SourceView)>,
    pub warmth_curve: Option<WarmthCurveView>,
}

impl View for Knobs {
    type V = KnobsView;

    open spec fn view(&self) -> KnobsView {
        KnobsView {
            path: self.path@,
            alignment: match self.alignment {
                Some((a, s)) => Some((a, s@)),
                None => None,
            },
            capture: match self.capture {
                Some(c) => Some(c@),
                None => None,
            },
            ram_fill: match self.ram_fill {
                Some((f, s)) => Some((f, s@)),
                None => None,
            },
            ram_seed: match self.ram_seed {
                Some((f, s)) => Some((f, s@)),
                None => None,
            },
            warmth: match self.warmth {
                Some((n, s)) => Some((n@, s@)),
                None => None,
            },
            warmth_curve: match self.warmth_curve {
                Some(c) => Some(c@),
                None => None,
            },
        }
    }
}

/// The value of the first key `k` of a table.
pub open spec fn lookup(ks: KeysView, k: Seq<char>) -> Option<ValueView>
    decreases ks.len(),
{
    if ks.len() == 0 {
        None
    } else if ks[0].0 == k {
        Some(ks[0].1)
    } else {
        lookup(ks.drop_first(), k)
    }
}

/// `lookup` by what it means: with no key `k` before `j`, it finds the
/// one at `j`, or nothing when `j` is the end.
proof fn lemma_lookup(ks: KeysView, k: Seq<char>, j: int)
    requires
        0 <= j <= ks.len(),
        forall|i: int| 0 <= i < j ==> (#[trigger] ks[i]).0 != k,
    ensures
        j < ks.len() && ks[j].0 == k ==> lookup(ks, k) == Some(ks[j].1),
        j == ks.len() ==> lookup(ks, k) is None,
    decreases j,
{
    if j > 0 {
        let d = ks.drop_first();
        assert forall|i: int| 0 <= i < j - 1 implies (#[trigger] d[i]).0 != k by {
            assert(d[i] == ks[i + 1]);
        }
        lemma_lookup(d, k, j - 1);
    }
}

/// A table's key, or "[name] has no `key`".
pub open spec fn t_get(n: Seq<char>, ks: KeysView, k: Seq<char>) -> Result<ValueView, Seq<char>> {
    match lookup(ks, k) {
        Some(v) => Ok(v),
        None => Err("["@ + n + "] has no `"@ + k + "`"@),
    }
}

/// A table's key as an integer.
pub open spec fn t_int(n: Seq<char>, ks: KeysView, k: Seq<char>) -> Result<i64, Seq<char>> {
    match t_get(n, ks, k) {
        Err(e) => Err(e),
        Ok(ValueView::Int(i)) => Ok(i),
        Ok(v) => Err("["@ + n + "] `"@ + k + "` is "@ + kind_text(v) + ", not an integer"@),
    }
}

/// A table's key as a number, float or integer.
pub open spec fn t_float(n: Seq<char>, ks: KeysView, k: Seq<char>) -> Result<NumberView, Seq<char>> {
    match t_get(n, ks, k) {
        Err(e) => Err(e),
        Ok(ValueView::Float(f)) => Ok(NumberView::Float(f)),
        Ok(ValueView::Int(i)) => Ok(NumberView::Int(i)),
        Ok(v) => Err("["@ + n + "] `"@ + k + "` is "@ + kind_text(v) + ", not a number"@),
    }
}

/// A table's key as a string.
pub open spec fn t_str(n: Seq<char>, ks: KeysView, k: Seq<char>) -> Result<Seq<char>, Seq<char>> {
    match t_get(n, ks, k) {
        Err(e) => Err(e),
        Ok(ValueView::Str(s)) => Ok(s),
        Ok(v) => Err("["@ + n + "] `"@ + k + "` is "@ + kind_text(v) + ", not a string"@),
    }
}

/// Words joined with ", ".
pub open spec fn join(ws: Seq<Seq<char>>) -> Seq<char>
    decreases ws.len(),
{
    if ws.len() == 0 {
        Seq::empty()
    } else if ws.len() == 1 {
        ws[0]
    } else {
        join(ws.drop_last()) + ", "@ + ws.last()
    }
}

/// A key a table may hold: one of its own, or a source key.
pub open spec fn is_known(known: Seq<Seq<char>>, k: Seq<char>) -> bool {
    known.contains(k) || k == "source"@ || k == "by"@ || k == "residual"@
}

/// The first `m` keys checked in order: the first unknown one refused.
pub open spec fn only_upto(n: Seq<char>, ks: KeysView, known: Seq<Seq<char>>, m: int) -> Result<(), Seq<char>>
    decreases m,
{
    if m <= 0 {
        Ok(())
    } else {
        match only_upto(n, ks, known, m - 1) {
            Err(e) => Err(e),
            Ok(_) => if is_known(known, ks[m - 1].0) {
                Ok(())
            } else {
                Err(
                    "["@ + n + "] has a key this reader does not know: `"@ + ks[m - 1].0 + "` (it knows "@ + join(
                        known,
                    ) + ")"@,
                )
            },
        }
    }
}

/// Every key of the table is known.
pub open spec fn t_only(n: Seq<char>, ks: KeysView, known: Seq<Seq<char>>) -> Result<(), Seq<char>> {
    only_upto(n, ks, known, ks.len() as int)
}

/// The kind a `source` names, if it names one.
pub open spec fn kind_named(s: Seq<char>) -> Option<SourceKind> {
    if s == "measured"@ {
        Some(SourceKind::Measured)
    } else if s == "authored"@ {
        Some(SourceKind::Authored)
    } else if s == "fitted"@ {
        Some(SourceKind::Fitted)
    } else {
        None
    }
}

/// A table's source: `source` one of the three kinds, `by` not blank, a
/// `residual` with a fitted table and only there.
pub open spec fn t_source(n: Seq<char>, ks: KeysView) -> Result<SourceView, Seq<char>> {
    match t_str(n, ks, "source"@) {
        Err(e) => Err(e),
        Ok(s) => match kind_named(s) {
            None => Err("["@ + n + "] `source` is "@ + debug_text(s) + "; it is measured, authored or fitted"@),
            Some(kind) => match t_str(n, ks, "by"@) {
                Err(e) => Err(e),
                Ok(by) => if trim(by).len() == 0 {
                    Err("["@ + n + "] `by` is empty: name the run, the probe or the document"@)
                } else if kind == SourceKind::Fitted {
                    if lookup(ks, "residual"@) is Some {
                        match t_float(n, ks, "residual"@) {
                            Err(e) => Err(e),
                            Ok(r) => Ok(SourceView { kind, by, residual: Some(r) }),
                        }
                    } else {
                        Err("["@ + n + "] is fitted and carries no `residual`"@)
                    }
                } else if lookup(ks, "residual"@) is Some {
                    Err("["@ + n + "] carries a `residual` but is not fitted"@)
                } else {
                    Ok(SourceView { kind, by, residual: None })
                },
            },
        },
    }
}

/// A source is fitted exactly when it carries a residual: a fitted
/// table without one, or another with one, is refused.
pub proof fn lemma_fitted_carries_its_residual(n: Seq<char>, ks: KeysView)
    ensures
        t_source(n, ks) matches Ok(s) ==> (s.kind == SourceKind::Fitted <==> s.residual is Some),
        t_source(n, ks) matches Ok(s) ==> trim(s.by).len() > 0,
{
}

/// The knobs with the alignment set.
pub open spec fn with_alignment(kv: KnobsView, a: Option<(Alignment, SourceView)>) -> KnobsView {
    KnobsView { alignment: a, ..kv }
}

/// The knobs with the capture set.
pub open spec fn with_capture(kv: KnobsView, c: Option<CaptureView>) -> KnobsView {
    KnobsView { capture: c, ..kv }
}

/// The knobs with the RAM fill set.
pub open spec fn with_fill(kv: KnobsView, f: Option<(u8, SourceView)>) -> KnobsView {
    KnobsView { ram_fill: f, ..kv }
}

/// The knobs with the RAM seed set.
pub open spec fn with_seed(kv: KnobsView, s: Option<(u32, SourceView)>) -> KnobsView {
    KnobsView { ram_seed: s, ..kv }
}

/// The knobs with the seconds on set.
pub open spec fn with_warmth(kv: KnobsView, w: Option<(NumberView, SourceView)>) -> KnobsView {
    KnobsView { warmth: w, ..kv }
}

/// The knobs with the warm-up curve set.
pub open spec fn with_curve(kv: KnobsView, c: Option<WarmthCurveView>) -> KnobsView {
    KnobsView { warmth_curve: c, ..kv }
}

/// A float's text starts with a minus sign.
pub open spec fn minus_sign(t: Seq<char>) -> bool {
    t.len() > 0 && t[0] == '-'
}

/// A digit other than zero stands before any exponent.
pub open spec fn nonzero_mantissa(u: Seq<char>) -> bool {
    exists|k: int|
        0 <= k < u.len() && '1' <= #[trigger] u[k] && u[k] <= '9' && forall|j: int| 0 <= j < k ==> u[j] != 'e' && u[j]
            != 'E'
}

/// A float's text, sign aside, names something other than zero or NaN:
/// an infinity, or a mantissa with a digit other than zero.
pub open spec fn nonzero_text(t: Seq<char>) -> bool {
    let u = unsigned(t);
    is_word(u, "inf"@) || is_word(u, "infinity"@) || nonzero_mantissa(u)
}

/// A number greater than zero.
pub open spec fn above_zero(n: NumberView) -> bool {
    match n {
        NumberView::Int(i) => i > 0,
        NumberView::Float(t) => !minus_sign(t) && nonzero_text(t),
    }
}

/// A number less than zero, or NaN: not zero or more.
pub open spec fn below_zero_or_nan(n: NumberView) -> bool {
    match n {
        NumberView::Int(i) => i < 0,
        NumberView::Float(t) => (minus_sign(t) && nonzero_text(t)) || is_word(unsigned(t), "nan"@),
    }
}

/// `[alignment]`: `cpu_phase` in 0..24 and `ppu_phase` in 0..8, and its
/// source.
pub open spec fn alignment_table(kv: KnobsView, n: Seq<char>, ks: KeysView) -> Result<KnobsView, Seq<char>> {
    match t_only(n, ks, seq!["cpu_phase"@, "ppu_phase"@]) {
        Err(e) => Err(e),
        Ok(_) => match t_int(n, ks, "cpu_phase"@) {
            Err(e) => Err(e),
            Ok(c) => match t_int(n, ks, "ppu_phase"@) {
                Err(e) => Err(e),
                Ok(p) => if !(0 <= c < 24) {
                    Err("[alignment] `cpu_phase` "@ + dec_int(c as int) + " is not in 0..24"@)
                } else if !(0 <= p < 8) {
                    Err("[alignment] `ppu_phase` "@ + dec_int(p as int) + " is not in 0..8"@)
                } else {
                    match t_source(n, ks) {
                        Err(e) => Err(e),
                        Ok(s) => Ok(with_alignment(kv, Some((Alignment { cpu_phase: c as u8, ppu_phase: p as u8 }, s)))),
                    }
                },
            },
        },
    }
}

/// `[capture]`: `channel` in 1..=4, the two numbers, and its source.
pub open spec fn capture_table(kv: KnobsView, n: Seq<char>, ks: KeysView) -> Result<KnobsView, Seq<char>> {
    match t_only(n, ks, seq!["scale_v_per_div"@, "offset_v"@, "channel"@]) {
        Err(e) => Err(e),
        Ok(_) => match t_int(n, ks, "channel"@) {
            Err(e) => Err(e),
            Ok(ch) => if !(1 <= ch <= 4) {
                Err("[capture] `channel` "@ + dec_int(ch as int) + " is not 1..4"@)
            } else {
                match t_float(n, ks, "scale_v_per_div"@) {
                    Err(e) => Err(e),
                    Ok(scale) => match t_float(n, ks, "offset_v"@) {
                        Err(e) => Err(e),
                        Ok(offset) => match t_source(n, ks) {
                            Err(e) => Err(e),
                            Ok(s) => Ok(
                                with_capture(
                                    kv,
                                    Some(CaptureView { scale_v_per_div: scale, offset_v: offset, channel: ch as u8, source: s }),
                                ),
                            ),
                        },
                    },
                }
            },
        },
    }
}

/// `[ram]`: exactly one of `fill` (a byte) and `seed` (a nonzero 32-bit
/// value), and its source.
pub open spec fn ram_table(kv: KnobsView, n: Seq<char>, ks: KeysView) -> Result<KnobsView, Seq<char>> {
    match t_only(n, ks, seq!["fill"@, "seed"@]) {
        Err(e) => Err(e),
        Ok(_) => {
            let has_fill = lookup(ks, "fill"@) is Some;
            let has_seed = lookup(ks, "seed"@) is Some;
            if has_fill && has_seed {
                Err("[ram] carries both `fill` and `seed`: one pattern"@)
            } else if !has_fill && !has_seed {
                Err("[ram] has neither `fill` nor `seed`"@)
            } else if has_fill {
                match t_int(n, ks, "fill"@) {
                    Err(e) => Err(e),
                    Ok(f) => if !(0 <= f <= 255) {
                        Err("[ram] `fill` "@ + dec_int(f as int) + " is not a byte"@)
                    } else {
                        match t_source(n, ks) {
                            Err(e) => Err(e),
                            Ok(s) => Ok(with_fill(kv, Some((f as u8, s)))),
                        }
                    },
                }
            } else {
                match t_int(n, ks, "seed"@) {
                    Err(e) => Err(e),
                    Ok(sd) => if sd <= 0 || sd > u32::MAX {
                        Err("[ram] `seed` "@ + dec_int(sd as int) + " is not a nonzero 32-bit value"@)
                    } else {
                        match t_source(n, ks) {
                            Err(e) => Err(e),
                            Ok(s) => Ok(with_seed(kv, Some((sd as u32, s)))),
                        }
                    },
                }
            }
        },
    }
}

/// `[warmth]`: `seconds_on`, zero or more, and its source.
pub open spec fn warmth_table(kv: KnobsView, n: Seq<char>, ks: KeysView) -> Result<KnobsView, Seq<char>> {
    match t_only(n, ks, seq!["seconds_on"@]) {
        Err(e) => Err(e),
        Ok(_) => match t_float(n, ks, "seconds_on"@) {
            Err(e) => Err(e),
            Ok(sec) => if below_zero_or_nan(sec) {
                Err("[warmth] `seconds_on` "@ + number_text(sec) + " is not zero or more"@)
            } else {
                match t_source(n, ks) {
                    Err(e) => Err(e),
                    Ok(s) => Ok(with_warmth(kv, Some((sec, s)))),
                }
            },
        },
    }
}

/// `[warmth_curve]`: `depth`, a positive `tau_s`, and its source.
pub open spec fn warmth_curve_table(kv: KnobsView, n: Seq<char>, ks: KeysView) -> Result<KnobsView, Seq<char>> {
    match t_only(n, ks, seq!["depth"@, "tau_s"@]) {
        Err(e) => Err(e),
        Ok(_) => match t_float(n, ks, "depth"@) {
            Err(e) => Err(e),
            Ok(depth) => match t_float(n, ks, "tau_s"@) {
                Err(e) => Err(e),
                Ok(tau) => if !above_zero(tau) {
                    Err("[warmth_curve] `tau_s` "@ + number_text(tau) + " is not positive"@)
                } else {
                    match t_source(n, ks) {
                        Err(e) => Err(e),
                        Ok(s) => Ok(with_curve(kv, Some(WarmthCurveView { depth, tau_s: tau, source: s }))),
                    }
                },
            },
        },
    }
}

/// One table read onto the knobs; a table this reader does not know
/// refused by name.
#[verifier::opaque]
pub open spec fn table_step(kv: KnobsView, n: Seq<char>, ks: KeysView) -> Result<KnobsView, Seq<char>> {
    if n == "alignment"@ {
        alignment_table(kv, n, ks)
    } else if n == "capture"@ {
        capture_table(kv, n, ks)
    } else if n == "ram"@ {
        ram_table(kv, n, ks)
    } else if n == "warmth"@ {
        warmth_table(kv, n, ks)
    } else if n == "warmth_curve"@ {
        warmth_curve_table(kv, n, ks)
    } else {
        Err(
            "a table this reader does not know: ["@ + n
                + "] (it knows [alignment], [capture], [ram], [warmth], [warmth_curve])"@,
        )
    }
}

/// The keys of an `[alignment]` table the bench writes: the two phases,
/// measured by `by`.
pub open spec fn alignment_keys(c: i64, p: i64, by: Seq<char>) -> KeysView {
    seq![
        ("cpu_phase"@, ValueView::Int(c)),
        ("ppu_phase"@, ValueView::Int(p)),
        ("source"@, ValueView::Str("measured"@)),
        ("by"@, ValueView::Str(by)),
    ]
}

/// An `[alignment]` table with both phases and a source reads exactly
/// when `cpu_phase` is one of the 24 half-steps of a CPU cycle (0..24)
/// and `ppu_phase` one of the 8 of a dot (0..8), and then sets the
/// alignment to those two phases, with its source, and nothing else.
pub proof fn lemma_an_alignment_in_range_reads(kv: KnobsView, c: i64, p: i64, by: Seq<char>)
    requires
        trim(by).len() > 0,
    ensures
        table_step(kv, "alignment"@, alignment_keys(c, p, by)) is Ok <==> (0 <= c < 24 && 0 <= p < 8),
        0 <= c < 24 && 0 <= p < 8 ==> table_step(kv, "alignment"@, alignment_keys(c, p, by)) == Ok::<
            KnobsView,
            Seq<char>,
        >(
            KnobsView {
                alignment: Some(
                    (
                        Alignment { cpu_phase: c as u8, ppu_phase: p as u8 },
                        SourceView { kind: SourceKind::Measured, by, residual: None },
                    ),
                ),
                ..kv
            },
        ),
{
    reveal(table_step);
    reveal_strlit("cpu_phase");
    reveal_strlit("ppu_phase");
    reveal_strlit("source");
    reveal_strlit("by");
    reveal_strlit("residual");
    reveal_strlit("alignment");
    reveal_strlit("capture");
    reveal_strlit("ram");
    reveal_strlit("measured");
    let ks = alignment_keys(c, p, by);
    let known = seq!["cpu_phase"@, "ppu_phase"@];
    assert(known[0] == "cpu_phase"@ && known[1] == "ppu_phase"@);
    assert(known.contains(ks[0].0) && known.contains(ks[1].0));
    reveal_with_fuel(only_upto, 5);
    assert(t_only("alignment"@, ks, known) == Ok::<(), Seq<char>>(()));
    assert("cpu_phase"@[0] != "ppu_phase"@[0] && "cpu_phase"@[0] != "source"@[0] && "cpu_phase"@[0] != "by"@[0]);
    assert("ppu_phase"@[0] != "source"@[0] && "ppu_phase"@[0] != "by"@[0] && "source"@[0] != "by"@[0]);
    assert("residual"@[0] != "cpu_phase"@[0] && "residual"@[0] != "ppu_phase"@[0] && "residual"@[0] != "source"@[0]
        && "residual"@[0] != "by"@[0]);
    lemma_lookup(ks, "cpu_phase"@, 0);
    lemma_lookup(ks, "ppu_phase"@, 1);
    lemma_lookup(ks, "source"@, 2);
    lemma_lookup(ks, "by"@, 3);
    lemma_lookup(ks, "residual"@, 4);
    assert(lookup(ks, "cpu_phase"@) == Some(ValueView::Int(c)));
    assert(lookup(ks, "ppu_phase"@) == Some(ValueView::Int(p)));
    assert(lookup(ks, "source"@) == Some(ValueView::Str("measured"@)));
    assert(lookup(ks, "by"@) == Some(ValueView::Str(by)));
    assert(lookup(ks, "residual"@) is None);
    assert(t_source("alignment"@, ks) == Ok::<SourceView, Seq<char>>(
        SourceView { kind: SourceKind::Measured, by, residual: None },
    ));
}

/// The keys of a `[ram]` table with one pattern key, `key`, authored by
/// `by`.
pub open spec fn ram_keys(key: Seq<char>, v: i64, by: Seq<char>) -> KeysView {
    seq![(key, ValueView::Int(v)), ("source"@, ValueView::Str("authored"@)), ("by"@, ValueView::Str(by))]
}

/// A `[ram]` table with a `fill` reads exactly when the fill is a byte,
/// and then sets the fill to it; one with a `seed` reads exactly when
/// the seed is a nonzero 32-bit value, and then sets the seed to it.
/// Nothing else changes.
pub proof fn lemma_a_ram_pattern_in_range_reads(kv: KnobsView, v: i64, by: Seq<char>)
    requires
        trim(by).len() > 0,
    ensures
        table_step(kv, "ram"@, ram_keys("fill"@, v, by)) is Ok <==> 0 <= v <= 255,
        0 <= v <= 255 ==> table_step(kv, "ram"@, ram_keys("fill"@, v, by)) == Ok::<KnobsView, Seq<char>>(
            KnobsView { ram_fill: Some((v as u8, SourceView { kind: SourceKind::Authored, by, residual: None })), ..kv },
        ),
        table_step(kv, "ram"@, ram_keys("seed"@, v, by)) is Ok <==> 1 <= v <= 0xffff_ffff,
        1 <= v <= 0xffff_ffff ==> table_step(kv, "ram"@, ram_keys("seed"@, v, by)) == Ok::<KnobsView, Seq<char>>(
            KnobsView { ram_seed: Some((v as u32, SourceView { kind: SourceKind::Authored, by, residual: None })), ..kv },
        ),
{
    reveal(table_step);
    reveal_strlit("fill");
    reveal_strlit("seed");
    reveal_strlit("source");
    reveal_strlit("by");
    reveal_strlit("residual");
    reveal_strlit("alignment");
    reveal_strlit("capture");
    reveal_strlit("ram");
    reveal_strlit("authored");
    reveal_strlit("measured");
    let known = seq!["fill"@, "seed"@];
    assert(known[0] == "fill"@ && known[1] == "seed"@);
    assert("fill"@[0] != "seed"@[0] && "fill"@[0] != "source"@[0] && "fill"@[0] != "by"@[0]);
    assert("seed"@[1] != "source"@[1] && "seed"@[0] != "by"@[0] && "source"@[0] != "by"@[0]);
    assert("residual"@[0] != "fill"@[0] && "residual"@[0] != "seed"@[0] && "residual"@[0] != "source"@[0]
        && "residual"@[0] != "by"@[0]);
    assert("authored"@[0] != "measured"@[0]);
    reveal_with_fuel(only_upto, 4);
    let kf = ram_keys("fill"@, v, by);
    let kd = ram_keys("seed"@, v, by);
    assert(known.contains(kf[0].0) && known.contains(kd[0].0));
    assert(t_only("ram"@, kf, known) == Ok::<(), Seq<char>>(()));
    assert(t_only("ram"@, kd, known) == Ok::<(), Seq<char>>(()));
    lemma_lookup(kf, "fill"@, 0);
    lemma_lookup(kf, "seed"@, 3);
    lemma_lookup(kf, "source"@, 1);
    lemma_lookup(kf, "by"@, 2);
    lemma_lookup(kf, "residual"@, 3);
    lemma_lookup(kd, "seed"@, 0);
    lemma_lookup(kd, "fill"@, 3);
    lemma_lookup(kd, "source"@, 1);
    lemma_lookup(kd, "by"@, 2);
    lemma_lookup(kd, "residual"@, 3);
    assert(t_source("ram"@, kf) == Ok::<SourceView, Seq<char>>(
        SourceView { kind: SourceKind::Authored, by, residual: None },
    ));
    assert(t_source("ram"@, kd) == Ok::<SourceView, Seq<char>>(
        SourceView { kind: SourceKind::Authored, by, residual: None },
    ));
}

/// The keys of a `[capture]` table: the scope window on `channel`,
/// measured by `by`.
pub open spec fn capture_keys(scale: NumberView, offset: NumberView, ch: i64, by: Seq<char>) -> KeysView {
    let val = |n: NumberView|
        match n {
            NumberView::Int(i) => ValueView::Int(i),
            NumberView::Float(t) => ValueView::Float(t),
        };
    seq![
        ("scale_v_per_div"@, val(scale)),
        ("offset_v"@, val(offset)),
        ("channel"@, ValueView::Int(ch)),
        ("source"@, ValueView::Str("measured"@)),
        ("by"@, ValueView::Str(by)),
    ]
}

/// A `[capture]` table reads exactly when its channel is one of the
/// scope's four, and then keeps the window as written, and nothing
/// else changes.
pub proof fn lemma_a_capture_on_a_channel_reads(
    kv: KnobsView,
    scale: NumberView,
    offset: NumberView,
    ch: i64,
    by: Seq<char>,
)
    requires
        trim(by).len() > 0,
    ensures
        table_step(kv, "capture"@, capture_keys(scale, offset, ch, by)) is Ok <==> 1 <= ch <= 4,
        1 <= ch <= 4 ==> table_step(kv, "capture"@, capture_keys(scale, offset, ch, by)) == Ok::<KnobsView, Seq<char>>(
            KnobsView {
                capture: Some(
                    CaptureView {
                        scale_v_per_div: scale,
                        offset_v: offset,
                        channel: ch as u8,
                        source: SourceView { kind: SourceKind::Measured, by, residual: None },
                    },
                ),
                ..kv
            },
        ),
{
    reveal(table_step);
    reveal_strlit("scale_v_per_div");
    reveal_strlit("offset_v");
    reveal_strlit("channel");
    reveal_strlit("source");
    reveal_strlit("by");
    reveal_strlit("residual");
    reveal_strlit("alignment");
    reveal_strlit("capture");
    reveal_strlit("measured");
    let ks = capture_keys(scale, offset, ch, by);
    let known = seq!["scale_v_per_div"@, "offset_v"@, "channel"@];
    assert(known[0] == "scale_v_per_div"@ && known[1] == "offset_v"@ && known[2] == "channel"@);
    assert(known.contains(ks[0].0) && known.contains(ks[1].0) && known.contains(ks[2].0));
    let names = seq!["scale_v_per_div"@, "offset_v"@, "channel"@, "source"@, "by"@, "residual"@];
    assert(names[0][0] == 's' && names[0][1] == 'c' && names[1][0] == 'o' && names[2][0] == 'c' && names[2][1] == 'h');
    assert(names[3][0] == 's' && names[3][1] == 'o' && names[4][0] == 'b' && names[5][0] == 'r');
    reveal_with_fuel(only_upto, 6);
    assert(t_only("capture"@, ks, known) == Ok::<(), Seq<char>>(()));
    lemma_lookup(ks, "scale_v_per_div"@, 0);
    lemma_lookup(ks, "offset_v"@, 1);
    lemma_lookup(ks, "channel"@, 2);
    lemma_lookup(ks, "source"@, 3);
    lemma_lookup(ks, "by"@, 4);
    lemma_lookup(ks, "residual"@, 5);
    assert(t_source("capture"@, ks) == Ok::<SourceView, Seq<char>>(
        SourceView { kind: SourceKind::Measured, by, residual: None },
    ));
}

/// No table read yet.
pub open spec fn no_knobs(path: Seq<char>) -> KnobsView {
    KnobsView {
        path,
        alignment: None,
        capture: None,
        ram_fill: None,
        ram_seed: None,
        warmth: None,
        warmth_curve: None,
    }
}

/// The first `m` tables read in order.
pub open spec fn knobs_upto(path: Seq<char>, ts: TablesView, m: int) -> Result<KnobsView, Seq<char>>
    decreases m,
{
    if m <= 0 {
        Ok(no_knobs(path))
    } else {
        match knobs_upto(path, ts, m - 1) {
            Err(e) => Err(e),
            Ok(kv) => table_step(kv, ts[m - 1].0, ts[m - 1].1),
        }
    }
}

/// The refusal of seconds on with no curve to read them on.
pub open spec fn warmth_alone() -> Seq<char> {
    "[warmth] without [warmth_curve]: the seconds on say nothing without the curve"@
}

/// What a knobs file reads as: its knobs, or the first refusal, after
/// the file's path; `[warmth]` without `[warmth_curve]` is refused once
/// every table has read.
pub open spec fn spec_knobs(text: Seq<char>, path: Seq<char>) -> Result<KnobsView, Seq<char>> {
    match spec_tables(text) {
        Err(e) => Err(path + ": "@ + e),
        Ok(ts) => match knobs_upto(path, ts, ts.len() as int) {
            Err(e) => Err(path + ": "@ + e),
            Ok(kv) => if kv.warmth is Some && kv.warmth_curve is None {
                Err(path + ": "@ + warmth_alone())
            } else {
                Ok(kv)
            },
        },
    }
}

/// The warmth knobs hold only what their tables let through: seconds
/// on that are zero or more, a curve whose time constant is positive.
pub open spec fn warmth_in_range(kv: KnobsView) -> bool {
    &&& kv.warmth matches Some((sec, _)) ==> !below_zero_or_nan(sec)
    &&& kv.warmth_curve matches Some(c) ==> above_zero(c.tau_s)
}

/// Every table read keeps the warmth knobs in range.
proof fn lemma_knobs_upto_warmth(path: Seq<char>, ts: TablesView, m: int)
    requires
        0 <= m,
    ensures
        knobs_upto(path, ts, m) matches Ok(kv) ==> warmth_in_range(kv),
    decreases m,
{
    reveal(table_step);
    if m > 0 {
        lemma_knobs_upto_warmth(path, ts, m - 1);
    }
}

/// A knobs file that reads never carries the seconds on without the
/// curve they sit on, and what it carries of either is in range: the
/// seconds zero or more, the time constant positive.
pub proof fn lemma_the_warmth_sits_on_its_curve(text: Seq<char>, path: Seq<char>)
    ensures
        spec_knobs(text, path) matches Ok(k) ==> (k.warmth is Some ==> k.warmth_curve is Some) && warmth_in_range(k),
{
    if let Ok(ts) = spec_tables(text) {
        lemma_knobs_upto_warmth(path, ts, ts.len() as int);
    }
}

/// Where the key `k` is among `keys`, if it is.
fn key_index(keys: &Vec<(String, Value)>, k: &str) -> (r: Option<usize>)
    ensures
        r matches Some(i) ==> i < keys@.len() && lookup(keys_view(keys@), k@) == Some(keys@[i as int].1@),
        r is None ==> lookup(keys_view(keys@), k@) is None,
{
    let kk = String::from_str(k);
    let mut i: usize = 0;
    while i < keys.len()
        invariant
            i <= keys@.len(),
            kk@ == k@,
            forall|j: int| 0 <= j < i ==> (#[trigger] keys_view(keys@)[j]).0 != k@,
        decreases keys@.len() - i,
    {
        if same(&keys[i].0, &kk) {
            proof {
                lemma_lookup(keys_view(keys@), k@, i as int);
            }
            return Some(i);
        }
        assert(keys_view(keys@)[i as int].0 == keys@[i as int].0@);
        i += 1;
    }
    proof {
        lemma_lookup(keys_view(keys@), k@, i as int);
    }
    None
}

/// "[name] " onto a new string: the start of a table's refusals.
fn table_prefix(name: &String) -> (e: String)
    ensures
        e@ == "["@ + name@ + "] "@,
{
    let mut e = String::new();
    push_str(&mut e, "[");
    push_str(&mut e, name.as_str());
    push_str(&mut e, "] ");
    e
}

/// A key's value, by index; see `t_get`.
fn get(name: &String, keys: &Vec<(String, Value)>, k: &str) -> (r: Result<usize, String>)
    ensures
        match (r, t_get(name@, keys_view(keys@), k@)) {
            (Ok(i), Ok(v)) => i < keys@.len() && keys@[i as int].1@ == v,
            (Err(e), Err(m)) => e@ == m,
            _ => false,
        },
{
    match key_index(keys, k) {
        Some(i) => Ok(i),
        None => {
            let mut e = String::new();
            push_str(&mut e, "[");
            push_str(&mut e, name.as_str());
            push_str(&mut e, "] has no `");
            push_str(&mut e, k);
            push_str(&mut e, "`");
            Err(e)
        },
    }
}

/// What a value is, for a refusal.
fn kind_of(v: &Value) -> (s: &'static str)
    ensures
        s@ == kind_text(v@),
{
    match v {
        Value::Str(_) => "a string",
        Value::Int(_) => "an integer",
        Value::Float(_) => "a float",
        Value::Bool(_) => "a boolean",
    }
}

/// "[name] `key` is <kind>, not <want>".
fn wrong_kind(name: &String, k: &str, v: &Value, want: &str) -> (e: String)
    ensures
        e@ == "["@ + name@ + "] `"@ + k@ + "` is "@ + kind_text(v@) + want@,
{
    let mut e = String::new();
    push_str(&mut e, "[");
    push_str(&mut e, name.as_str());
    push_str(&mut e, "] `");
    push_str(&mut e, k);
    push_str(&mut e, "` is ");
    push_str(&mut e, kind_of(v));
    push_str(&mut e, want);
    e
}

/// A key as an integer; see `t_int`.
fn get_int(name: &String, keys: &Vec<(String, Value)>, k: &str) -> (r: Result<i64, String>)
    ensures
        match (r, t_int(name@, keys_view(keys@), k@)) {
            (Ok(i), Ok(j)) => i == j,
            (Err(e), Err(m)) => e@ == m,
            _ => false,
        },
{
    let i = get(name, keys, k)?;
    match &keys[i].1 {
        Value::Int(x) => Ok(*x),
        v => Err(wrong_kind(name, k, v, ", not an integer")),
    }
}

/// A key as a number; see `t_float`.
fn get_float(name: &String, keys: &Vec<(String, Value)>, k: &str) -> (r: Result<Number, String>)
    ensures
        match (r, t_float(name@, keys_view(keys@), k@)) {
            (Ok(x), Ok(y)) => x@ == y,
            (Err(e), Err(m)) => e@ == m,
            _ => false,
        },
{
    let i = get(name, keys, k)?;
    match &keys[i].1 {
        Value::Float(f) => Ok(Number::Float(f.clone())),
        Value::Int(x) => Ok(Number::Int(*x)),
        v => Err(wrong_kind(name, k, v, ", not a number")),
    }
}

/// A key as a string; see `t_str`.
fn get_str(name: &String, keys: &Vec<(String, Value)>, k: &str) -> (r: Result<String, String>)
    ensures
        match (r, t_str(name@, keys_view(keys@), k@)) {
            (Ok(x), Ok(y)) => x@ == y,
            (Err(e), Err(m)) => e@ == m,
            _ => false,
        },
{
    let i = get(name, keys, k)?;
    match &keys[i].1 {
        Value::Str(s) => Ok(s.clone()),
        v => Err(wrong_kind(name, k, v, ", not a string")),
    }
}

/// The texts of some strings.
pub open spec fn texts(ws: Seq<String>) -> Seq<Seq<char>> {
    Seq::new(ws.len(), |i: int| ws[i]@)
}

/// Words joined with ", "; see `join`.
fn join_words(ws: &Vec<String>) -> (j: String)
    ensures
        j@ == join(texts(ws@)),
{
    let mut j = String::new();
    let mut i: usize = 0;
    while i < ws.len()
        invariant
            i <= ws@.len(),
            j@ == join(texts(ws@.subrange(0, i as int))),
        decreases ws@.len() - i,
    {
        let ghost before = ws@.subrange(0, i as int);
        if i > 0 {
            push_str(&mut j, ", ");
        }
        push_str(&mut j, ws[i].as_str());
        assert(texts(ws@.subrange(0, i + 1)).drop_last() =~= texts(before));
        assert(texts(before) =~= texts(ws@.subrange(0, i as int)));
        if i == 0 {
            assert(texts(ws@.subrange(0, 1)) =~= seq![ws@[0]@]);
        }
        i += 1;
    }
    assert(ws@.subrange(0, ws@.len() as int) =~= ws@);
    j
}

/// Whether `k` is among the words `ws`, or a source key.
fn known_key(ws: &Vec<String>, k: &String) -> (r: bool)
    ensures
        r == is_known(texts(ws@), k@),
{
    let mut i: usize = 0;
    while i < ws.len()
        invariant
            i <= ws@.len(),
            forall|j: int| 0 <= j < i ==> texts(ws@)[j] != k@,
        decreases ws@.len() - i,
    {
        if same(&ws[i], k) {
            assert(texts(ws@)[i as int] == k@);
            return true;
        }
        i += 1;
    }
    let s = String::from_str("source");
    let b = String::from_str("by");
    let r = String::from_str("residual");
    same(k, &s) || same(k, &b) || same(k, &r)
}

/// Every key of the table known; see `t_only`.
fn only(name: &String, keys: &Vec<(String, Value)>, known: &Vec<String>) -> (r: Result<(), String>)
    ensures
        match (r, t_only(name@, keys_view(keys@), texts(known@))) {
            (Ok(_), Ok(_)) => true,
            (Err(e), Err(m)) => e@ == m,
            _ => false,
        },
{
    let ghost ks = keys_view(keys@);
    let mut i: usize = 0;
    while i < keys.len()
        invariant
            i <= keys@.len(),
            ks == keys_view(keys@),
            only_upto(name@, ks, texts(known@), i as int) is Ok,
        decreases keys@.len() - i,
    {
        if !known_key(known, &keys[i].0) {
            let mut e = String::new();
            push_str(&mut e, "[");
            push_str(&mut e, name.as_str());
            push_str(&mut e, "] has a key this reader does not know: `");
            push_str(&mut e, keys[i].0.as_str());
            push_str(&mut e, "` (it knows ");
            let j = join_words(known);
            push_str(&mut e, j.as_str());
            push_str(&mut e, ")");
            proof {
                lemma_only_err_sticks(name@, ks, texts(known@), i + 1, ks.len() as int);
            }
            return Err(e);
        }
        i += 1;
    }
    Ok(())
}

/// Once the first `k` keys refuse, so do the first `m`.
proof fn lemma_only_err_sticks(n: Seq<char>, ks: KeysView, known: Seq<Seq<char>>, k: int, m: int)
    requires
        0 <= k <= m,
        only_upto(n, ks, known, k) is Err,
    ensures
        only_upto(n, ks, known, m) == only_upto(n, ks, known, k),
    decreases m - k,
{
    if m > k {
        lemma_only_err_sticks(n, ks, known, k, m - 1);
    }
}

/// A table's source; see `t_source`.
fn source(name: &String, keys: &Vec<(String, Value)>) -> (r: Result<Source, String>)
    ensures
        match (r, t_source(name@, keys_view(keys@))) {
            (Ok(x), Ok(y)) => x@ == y,
            (Err(e), Err(m)) => e@ == m,
            _ => false,
        },
{
    let s = get_str(name, keys, "source")?;
    let kind = if same(&s, &String::from_str("measured")) {
        SourceKind::Measured
    } else if same(&s, &String::from_str("authored")) {
        SourceKind::Authored
    } else if same(&s, &String::from_str("fitted")) {
        SourceKind::Fitted
    } else {
        let mut e = String::new();
        push_str(&mut e, "[");
        push_str(&mut e, name.as_str());
        push_str(&mut e, "] `source` is ");
        let q = debug_quoted(s.as_str());
        push_str(&mut e, q.as_str());
        push_str(&mut e, "; it is measured, authored or fitted");
        return Err(e);
    };
    let by = get_str(name, keys, "by")?;
    let bc = chars_of(by.as_str());
    let (x, y) = trim_range(&bc, 0, bc.len());
    assert(span(bc@, 0, bc@.len() as int) =~= by@);
    if x == y {
        let mut e = String::new();
        push_str(&mut e, "[");
        push_str(&mut e, name.as_str());
        push_str(&mut e, "] `by` is empty: name the run, the probe or the document");
        return Err(e);
    }
    let has_residual = key_index(keys, "residual").is_some();
    if kind == SourceKind::Fitted {
        if has_residual {
            let r = get_float(name, keys, "residual")?;
            Ok(Source { kind, by, residual: Some(r) })
        } else {
            let mut e = String::new();
            push_str(&mut e, "[");
            push_str(&mut e, name.as_str());
            push_str(&mut e, "] is fitted and carries no `residual`");
            Err(e)
        }
    } else if has_residual {
        let mut e = String::new();
        push_str(&mut e, "[");
        push_str(&mut e, name.as_str());
        push_str(&mut e, "] carries a `residual` but is not fitted");
        Err(e)
    } else {
        Ok(Source { kind, by, residual: None })
    }
}

/// Whether `t[a..]` holds a digit other than zero before any
/// exponent; see `nonzero_mantissa`.
fn mantissa_nonzero(t: &Vec<char>, a: usize) -> (r: bool)
    requires
        a <= t@.len(),
    ensures
        r == nonzero_mantissa(span(t@, a as int, t@.len() as int)),
{
    let ghost u = span(t@, a as int, t@.len() as int);
    let mut i: usize = a;
    while i < t.len() && t[i] != 'e' && t[i] != 'E'
        invariant
            a <= i <= t@.len(),
            u == span(t@, a as int, t@.len() as int),
            forall|j: int| a <= j < i ==> t@[j] != 'e' && t@[j] != 'E' && !('1' <= t@[j] && t@[j] <= '9'),
        decreases t@.len() - i,
    {
        if '1' <= t[i] && t[i] <= '9' {
            proof {
                assert(u[i - a] == t@[i as int]);
                assert forall|j: int| 0 <= j < i - a implies u[j] != 'e' && u[j] != 'E' by {
                    assert(u[j] == t@[a + j]);
                }
            }
            return true;
        }
        i += 1;
    }
    proof {
        if nonzero_mantissa(u) {
            let k = choose|k: int|
                0 <= k < u.len() && '1' <= #[trigger] u[k] && u[k] <= '9' && forall|j: int|
                    0 <= j < k ==> u[j] != 'e' && u[j] != 'E';
            assert(u[k] == t@[a + k]);
            if a + k >= i {
                assert(u[i - a] == t@[i as int]);
            }
        }
    }
    false
}

/// A float's text: whether it starts with a minus sign, whether it
/// names something other than zero and NaN, whether it is NaN.
fn float_parts(t: &String) -> (r: (bool, bool, bool))
    ensures
        r.0 == minus_sign(t@),
        r.1 == nonzero_text(t@),
        r.2 == is_word(unsigned(t@), "nan"@),
{
    let c = chars_of(t.as_str());
    let n = c.len();
    let minus = n > 0 && c[0] == '-';
    let s0: usize = if n > 0 && (c[0] == '+' || c[0] == '-') { 1 } else { 0 };
    assert(unsigned(c@) =~= span(c@, s0 as int, n as int));
    let inf = span_word(&c, s0, n, "inf") || span_word(&c, s0, n, "infinity");
    let nan = span_word(&c, s0, n, "nan");
    let nonzero = inf || mantissa_nonzero(&c, s0);
    (minus, nonzero, nan)
}

/// Whether a number is greater than zero; see `above_zero`.
fn is_above_zero(n: &Number) -> (r: bool)
    ensures
        r == above_zero(n@),
{
    match n {
        Number::Int(i) => *i > 0,
        Number::Float(t) => {
            let (minus, nonzero, _) = float_parts(t);
            !minus && nonzero
        },
    }
}

/// Whether a number is less than zero or NaN; see `below_zero_or_nan`.
fn is_below_zero_or_nan(n: &Number) -> (r: bool)
    ensures
        r == below_zero_or_nan(n@),
{
    match n {
        Number::Int(i) => *i < 0,
        Number::Float(t) => {
            let (minus, nonzero, nan) = float_parts(t);
            (minus && nonzero) || nan
        },
    }
}

/// Strings from string slices.
fn words(ws: &[&str]) -> (v: Vec<String>)
    ensures
        texts(v@) == Seq::new(ws@.len(), |i: int| ws@[i]@),
{
    let mut v: Vec<String> = Vec::new();
    let mut i: usize = 0;
    while i < ws.len()
        invariant
            i <= ws@.len(),
            v@.len() == i,
            forall|j: int| 0 <= j < i ==> (#[trigger] v@[j])@ == ws@[j]@,
        decreases ws@.len() - i,
    {
        let w = String::from_str(ws[i]);
        v.push(w);
        i += 1;
    }
    assert(texts(v@) =~= Seq::new(ws@.len(), |i: int| ws@[i]@));
    v
}

/// The 32-bit xorshift step (13, 17, 5).
pub open spec fn xorshift(x: u32) -> u32 {
    let a = x ^ (x << 13u32);
    let b = a ^ (a >> 17u32);
    b ^ (b << 5u32)
}

/// The xorshift state after `n` steps from `seed`.
pub open spec fn xorshift_n(seed: u32, n: nat) -> u32
    decreases n,
{
    if n == 0 {
        seed
    } else {
        xorshift(xorshift_n(seed, (n - 1) as nat))
    }
}

/// The work RAM a seed fills: address `a` holds the top byte of the
/// state after `a + 1` steps.
pub open spec fn seeded(seed: u32) -> Seq<u8> {
    Seq::new(2048, |a: int| (xorshift_n(seed, (a + 1) as nat) >> 24u32) as u8)
}

/// The work RAM after the knobs act on it: the fill everywhere, then
/// the seed's pattern over it.
pub open spec fn applied(kv: KnobsView, ram: Seq<u8>) -> Seq<u8> {
    let filled = match kv.ram_fill {
        Some((f, _)) => Seq::new(2048, |a: int| f),
        None => ram,
    };
    match kv.ram_seed {
        Some((sd, _)) => seeded(sd),
        None => filled,
    }
}

impl Knobs {
    /// `[warmth]` read onto the knobs; see `warmth_table`.
    fn read_warmth(&mut self, name: &String, keys: &Vec<(String, Value)>) -> (r: Result<(), String>)
        ensures
            match (r, warmth_table(old(self)@, name@, keys_view(keys@))) {
                (Ok(_), Ok(k)) => final(self)@ == k,
                (Err(e), Err(m)) => e@ == m,
                _ => false,
            },
    {
        let known = words(&["seconds_on"]);
        assert(texts(known@) =~= seq!["seconds_on"@]);
        only(name, keys, &known)?;
        let sec = get_float(name, keys, "seconds_on")?;
        if is_below_zero_or_nan(&sec) {
            let mut e = String::new();
            push_str(&mut e, "[warmth] `seconds_on` ");
            push_number(&mut e, &sec);
            push_str(&mut e, " is not zero or more");
            return Err(e);
        }
        let s = source(name, keys)?;
        self.warmth = Some((sec, s));
        Ok(())
    }

    /// `[warmth_curve]` read onto the knobs; see `warmth_curve_table`.
    fn read_warmth_curve(&mut self, name: &String, keys: &Vec<(String, Value)>) -> (r: Result<(), String>)
        ensures
            match (r, warmth_curve_table(old(self)@, name@, keys_view(keys@))) {
                (Ok(_), Ok(k)) => final(self)@ == k,
                (Err(e), Err(m)) => e@ == m,
                _ => false,
            },
    {
        let known = words(&["depth", "tau_s"]);
        assert(texts(known@) =~= seq!["depth"@, "tau_s"@]);
        only(name, keys, &known)?;
        let depth = get_float(name, keys, "depth")?;
        let tau = get_float(name, keys, "tau_s")?;
        if !is_above_zero(&tau) {
            let mut e = String::new();
            push_str(&mut e, "[warmth_curve] `tau_s` ");
            push_number(&mut e, &tau);
            push_str(&mut e, " is not positive");
            return Err(e);
        }
        let s = source(name, keys)?;
        self.warmth_curve = Some(WarmthCurve { depth, tau_s: tau, source: s });
        Ok(())
    }

    /// One table read onto the knobs; see `table_step`.
    fn table(&mut self, name: &String, keys: &Vec<(String, Value)>) -> (r: Result<(), String>)
        ensures
            match (r, table_step(old(self)@, name@, keys_view(keys@))) {
                (Ok(_), Ok(k)) => final(self)@ == k,
                (Err(e), Err(m)) => e@ == m,
                _ => false,
            },
    {
        reveal(table_step);
        if same(name, &String::from_str("alignment")) {
            let known = words(&["cpu_phase", "ppu_phase"]);
            assert(texts(known@) =~= seq!["cpu_phase"@, "ppu_phase"@]);
            only(name, keys, &known)?;
            let c = get_int(name, keys, "cpu_phase")?;
            let p = get_int(name, keys, "ppu_phase")?;
            if !(0 <= c && c < 24) {
                let mut e = String::new();
                push_str(&mut e, "[alignment] `cpu_phase` ");
                push_int(&mut e, c);
                push_str(&mut e, " is not in 0..24");
                return Err(e);
            }
            if !(0 <= p && p < 8) {
                let mut e = String::new();
                push_str(&mut e, "[alignment] `ppu_phase` ");
                push_int(&mut e, p);
                push_str(&mut e, " is not in 0..8");
                return Err(e);
            }
            let s = source(name, keys)?;
            self.alignment = Some((Alignment { cpu_phase: c as u8, ppu_phase: p as u8 }, s));
            Ok(())
        } else if same(name, &String::from_str("capture")) {
            let known = words(&["scale_v_per_div", "offset_v", "channel"]);
            assert(texts(known@) =~= seq!["scale_v_per_div"@, "offset_v"@, "channel"@]);
            only(name, keys, &known)?;
            let ch = get_int(name, keys, "channel")?;
            if !(1 <= ch && ch <= 4) {
                let mut e = String::new();
                push_str(&mut e, "[capture] `channel` ");
                push_int(&mut e, ch);
                push_str(&mut e, " is not 1..4");
                return Err(e);
            }
            let scale = get_float(name, keys, "scale_v_per_div")?;
            let offset = get_float(name, keys, "offset_v")?;
            let s = source(name, keys)?;
            self.capture = Some(Capture { scale_v_per_div: scale, offset_v: offset, channel: ch as u8, source: s });
            Ok(())
        } else if same(name, &String::from_str("ram")) {
            let known = words(&["fill", "seed"]);
            assert(texts(known@) =~= seq!["fill"@, "seed"@]);
            only(name, keys, &known)?;
            let has_fill = key_index(keys, "fill").is_some();
            let has_seed = key_index(keys, "seed").is_some();
            if has_fill && has_seed {
                return Err(String::from_str("[ram] carries both `fill` and `seed`: one pattern"));
            }
            if !has_fill && !has_seed {
                return Err(String::from_str("[ram] has neither `fill` nor `seed`"));
            }
            if has_fill {
                let f = get_int(name, keys, "fill")?;
                if !(0 <= f && f <= 255) {
                    let mut e = String::new();
                    push_str(&mut e, "[ram] `fill` ");
                    push_int(&mut e, f);
                    push_str(&mut e, " is not a byte");
                    return Err(e);
                }
                let s = source(name, keys)?;
                self.ram_fill = Some((f as u8, s));
                Ok(())
            } else {
                let sd = get_int(name, keys, "seed")?;
                if sd <= 0 || sd > 0xffff_ffff {
                    let mut e = String::new();
                    push_str(&mut e, "[ram] `seed` ");
                    push_int(&mut e, sd);
                    push_str(&mut e, " is not a nonzero 32-bit value");
                    return Err(e);
                }
                let s = source(name, keys)?;
                self.ram_seed = Some((sd as u32, s));
                Ok(())
            }
        } else if same(name, &String::from_str("warmth")) {
            self.read_warmth(name, keys)
        } else if same(name, &String::from_str("warmth_curve")) {
            self.read_warmth_curve(name, keys)
        } else {
            let mut e = String::new();
            push_str(&mut e, "a table this reader does not know: [");
            push_str(&mut e, name.as_str());
            push_str(&mut e, "] (it knows [alignment], [capture], [ram], [warmth], [warmth_curve])");
            Err(e)
        }
    }

    /// Read a knobs file's text; `path` names it in every refusal. See
    /// `spec_knobs`.
    pub fn parse(text: &str, path: &str) -> (r: Result<Knobs, String>)
        ensures
            match (r, spec_knobs(text@, path@)) {
                (Ok(k), Ok(v)) => k@ == v,
                (Err(e), Err(m)) => e@ == m,
                _ => false,
            },
    {
        let t = chars_of(text);
        let tables = match parse_tables(&t) {
            Ok(x) => x,
            Err(e) => {
                let mut m = String::from_str(path);
                push_str(&mut m, ": ");
                push_str(&mut m, e.as_str());
                return Err(m);
            },
        };
        let ghost ts = tables_view(tables@);
        assert(spec_tables(text@) == Ok::<TablesView, Seq<char>>(ts));
        let mut knobs = Knobs {
            path: String::from_str(path),
            alignment: None,
            capture: None,
            ram_fill: None,
            ram_seed: None,
            warmth: None,
            warmth_curve: None,
        };
        let mut i: usize = 0;
        while i < tables.len()
            invariant
                i <= tables@.len(),
                ts == tables_view(tables@),
                spec_tables(text@) == Ok::<TablesView, Seq<char>>(ts),
                knobs_upto(path@, ts, i as int) == Ok::<KnobsView, Seq<char>>(knobs@),
            decreases tables@.len() - i,
        {
            assert(ts[i as int] == table_view(tables@[i as int]));
            let ghost before = knobs@;
            match knobs.table(&tables[i].0, &tables[i].1) {
                Ok(_) => {},
                Err(e) => {
                    proof {
                        assert(knobs_upto(path@, ts, i + 1) == table_step(before, ts[i as int].0, ts[i as int].1));
                        assert(knobs_upto(path@, ts, i + 1) == Err::<KnobsView, Seq<char>>(e@));
                        lemma_knobs_err_sticks(path@, ts, i + 1, ts.len() as int);
                        assert(spec_tables(text@) == Ok::<TablesView, Seq<char>>(ts));
                        assert(knobs_upto(path@, ts, ts.len() as int) == Err::<KnobsView, Seq<char>>(e@));
                    }
                    let mut m = String::from_str(path);
                    push_str(&mut m, ": ");
                    push_str(&mut m, e.as_str());
                    assert(m@ == path@ + ": "@ + e@);
                    return Err(m);
                },
            }
            i += 1;
        }
        if knobs.warmth.is_some() && knobs.warmth_curve.is_none() {
            let mut m = String::from_str(path);
            push_str(&mut m, ": ");
            push_str(&mut m, "[warmth] without [warmth_curve]: the seconds on say nothing without the curve");
            return Err(m);
        }
        Ok(knobs)
    }

    /// The alignment to run at: the file's, or the measured default.
    pub fn alignment(&self) -> (a: Alignment)
        ensures
            a == match self.alignment {
                Some((x, _)) => x,
                None => spec_measured(),
            },
    {
        match &self.alignment {
            Some((a, _)) => *a,
            None => Alignment::measured(),
        }
    }

    /// The knobs that act after construction: the work RAM's power-on
    /// fill (or seeded pattern), written into every address the CPU can
    /// reach.
    pub fn apply(&self, wram: &mut crate::sram::Tmm2115)
        ensures
            final(wram)@ == applied(self@, old(wram)@),
    {
        proof {
            wram.lemma_len();
        }
        if let Some((f, _)) = &self.ram_fill {
            let mut a: u16 = 0;
            while a < 0x800
                invariant
                    a <= 0x800,
                    wram@.len() == 2048,
                    forall|i: int| 0 <= i < a ==> wram@[i] == *f,
                decreases 0x800 - a,
            {
                wram.write(a, *f);
                a += 1;
            }
            assert(wram@ =~= Seq::new(2048, |i: int| *f));
        }
        if let Some((sd, _)) = &self.ram_seed {
            let mut x: u32 = *sd;
            let mut a: u16 = 0;
            while a < 0x800
                invariant
                    a <= 0x800,
                    wram@.len() == 2048,
                    x == xorshift_n(*sd, a as nat),
                    forall|i: int| 0 <= i < a ==> wram@[i] == seeded(*sd)[i],
                decreases 0x800 - a,
            {
                x ^= x << 13u32;
                x ^= x >> 17u32;
                x ^= x << 5u32;
                wram.write(a, (x >> 24u32) as u8);
                a += 1;
            }
            assert(wram@ =~= seeded(*sd));
        }
    }
}

/// A kind's name.
pub open spec fn kind_name(k: SourceKind) -> Seq<char> {
    match k {
        SourceKind::Measured => "measured"@,
        SourceKind::Authored => "authored"@,
        SourceKind::Fitted => "fitted"@,
    }
}

/// A number as a report prints it: an integer in decimal, a float as
/// the file wrote it (its text, not a formatting of the parsed value).
pub open spec fn number_text(n: NumberView) -> Seq<char> {
    match n {
        NumberView::Int(i) => dec_int(i as int),
        NumberView::Float(t) => t,
    }
}

/// A source as a report prints it: "kind by who", and the residual of
/// a fitted one.
pub open spec fn source_text(s: SourceView) -> Seq<char> {
    match s.residual {
        Some(r) => kind_name(s.kind) + " by "@ + s.by + " (residual "@ + number_text(r) + ")"@,
        None => kind_name(s.kind) + " by "@ + s.by,
    }
}

/// A hex digit, lower case.
pub open spec fn hex_digit(d: int) -> char {
    if d < 10 { ('0' as int + d) as char } else { ('a' as int + d - 10) as char }
}

/// A byte as two hex digits, lower case.
pub open spec fn hex2(b: u8) -> Seq<char> {
    seq![hex_digit(b as int / 16), hex_digit(b as int % 16)]
}

/// The alignment's line of a report.
pub open spec fn alignment_line(a: Option<(Alignment, SourceView)>) -> Seq<char> {
    match a {
        Some((a, s)) => "\n  alignment cpu_phase "@ + dec(a.cpu_phase as nat) + " ppu_phase "@ + dec(a.ppu_phase as nat)
            + ", "@ + source_text(s),
        None => "\n  alignment: not in the file; the measured default"@,
    }
}

/// The capture's line of a report, when there is one.
pub open spec fn capture_line(c: Option<CaptureView>) -> Seq<char> {
    match c {
        Some(c) => "\n  capture CH"@ + dec(c.channel as nat) + " at "@ + number_text(c.scale_v_per_div) + " V/div, offset "@
            + number_text(c.offset_v) + " V, "@ + source_text(c.source),
        None => Seq::empty(),
    }
}

/// The RAM fill's line of a report, when there is one.
pub open spec fn fill_line(f: Option<(u8, SourceView)>) -> Seq<char> {
    match f {
        Some((f, s)) => "\n  ram fill "@ + hex2(f) + " at power-on, "@ + source_text(s),
        None => Seq::empty(),
    }
}

/// The RAM seed's line of a report, when there is one.
pub open spec fn seed_line(sd: Option<(u32, SourceView)>) -> Seq<char> {
    match sd {
        Some((sd, s)) => "\n  ram pattern from seed "@ + dec(sd as nat) + " at power-on, "@ + source_text(s),
        None => Seq::empty(),
    }
}

/// The seconds on's line of a report, when there is one.
pub open spec fn warmth_line(w: Option<(NumberView, SourceView)>) -> Seq<char> {
    match w {
        Some((sec, s)) => "\n  warmth "@ + number_text(sec) + " s on, "@ + source_text(s),
        None => Seq::empty(),
    }
}

/// The warm-up curve's line of a report, when there is one.
pub open spec fn curve_line(c: Option<WarmthCurveView>) -> Seq<char> {
    match c {
        Some(c) => "\n  warmth curve depth "@ + number_text(c.depth) + ", tau "@ + number_text(c.tau_s) + " s, "@
            + source_text(c.source),
        None => Seq::empty(),
    }
}

/// What a report prints of the knobs: a line naming the file, then one
/// line per table with its source.
pub open spec fn spec_describe(k: KnobsView) -> Seq<char> {
    "knobs "@ + k.path + ":"@ + alignment_line(k.alignment) + capture_line(k.capture) + fill_line(k.ram_fill)
        + seed_line(k.ram_seed) + warmth_line(k.warmth) + curve_line(k.warmth_curve)
}

/// Append a number as a report prints it.
fn push_number(e: &mut String, n: &Number)
    ensures
        final(e)@ == old(e)@ + number_text(n@),
{
    match n {
        Number::Int(i) => push_int(e, *i),
        Number::Float(t) => push_str(e, t.as_str()),
    }
}

/// Append a hex digit.
fn push_hex_digit(e: &mut String, d: u8)
    requires
        d < 16,
    ensures
        final(e)@ == old(e)@.push(hex_digit(d as int)),
{
    let c = if d < 10 { (48 + d) as char } else { (87 + d) as char };
    e.push(c);
}

impl Source {
    /// The source as a report prints it; see `source_text`. A residual
    /// given as a float is printed as the file's text for it.
    pub fn describe(&self) -> (d: String)
        ensures
            d@ == source_text(self@),
    {
        let mut d = String::new();
        let kind = match self.kind {
            SourceKind::Measured => "measured",
            SourceKind::Authored => "authored",
            SourceKind::Fitted => "fitted",
        };
        push_str(&mut d, kind);
        push_str(&mut d, " by ");
        push_str(&mut d, self.by.as_str());
        match &self.residual {
            Some(r) => {
                push_str(&mut d, " (residual ");
                push_number(&mut d, r);
                push_str(&mut d, ")");
            },
            None => {},
        }
        d
    }
}

/// Append the alignment's line.
fn push_alignment_line(d: &mut String, a: &Option<(Alignment, Source)>)
    ensures
        final(d)@ == old(d)@ + alignment_line(
            match a {
                Some((x, s)) => Some((*x, s@)),
                None => None,
            },
        ),
{
    match a {
        Some((a, s)) => {
            push_str(d, "\n  alignment cpu_phase ");
            push_dec(d, a.cpu_phase as u64);
            push_str(d, " ppu_phase ");
            push_dec(d, a.ppu_phase as u64);
            push_str(d, ", ");
            let t = s.describe();
            push_str(d, t.as_str());
        },
        None => push_str(d, "\n  alignment: not in the file; the measured default"),
    }
}

/// Append the capture's line.
fn push_capture_line(d: &mut String, c: &Option<Capture>)
    ensures
        final(d)@ == old(d)@ + capture_line(
            match c {
                Some(x) => Some(x@),
                None => None,
            },
        ),
{
    match c {
        Some(c) => {
            push_str(d, "\n  capture CH");
            push_dec(d, c.channel as u64);
            push_str(d, " at ");
            push_number(d, &c.scale_v_per_div);
            push_str(d, " V/div, offset ");
            push_number(d, &c.offset_v);
            push_str(d, " V, ");
            let t = c.source.describe();
            push_str(d, t.as_str());
        },
        None => {},
    }
}

/// Append the RAM fill's line.
fn push_fill_line(d: &mut String, f: &Option<(u8, Source)>)
    ensures
        final(d)@ == old(d)@ + fill_line(
            match f {
                Some((x, s)) => Some((*x, s@)),
                None => None,
            },
        ),
{
    match f {
        Some((f, s)) => {
            push_str(d, "\n  ram fill ");
            push_hex_digit(d, *f / 16);
            push_hex_digit(d, *f % 16);
            push_str(d, " at power-on, ");
            let t = s.describe();
            push_str(d, t.as_str());
        },
        None => {},
    }
}

/// Append the RAM seed's line.
fn push_seed_line(d: &mut String, sd: &Option<(u32, Source)>)
    ensures
        final(d)@ == old(d)@ + seed_line(
            match sd {
                Some((x, s)) => Some((*x, s@)),
                None => None,
            },
        ),
{
    match sd {
        Some((sd, s)) => {
            push_str(d, "\n  ram pattern from seed ");
            push_dec(d, *sd as u64);
            push_str(d, " at power-on, ");
            let t = s.describe();
            push_str(d, t.as_str());
        },
        None => {},
    }
}

/// Append the seconds on's line.
fn push_warmth_line(d: &mut String, w: &Option<(Number, Source)>)
    ensures
        final(d)@ == old(d)@ + warmth_line(
            match w {
                Some((n, s)) => Some((n@, s@)),
                None => None,
            },
        ),
{
    match w {
        Some((sec, s)) => {
            push_str(d, "\n  warmth ");
            push_number(d, sec);
            push_str(d, " s on, ");
            let t = s.describe();
            push_str(d, t.as_str());
        },
        None => {},
    }
}

/// Append the warm-up curve's line.
fn push_curve_line(d: &mut String, c: &Option<WarmthCurve>)
    ensures
        final(d)@ == old(d)@ + curve_line(
            match c {
                Some(x) => Some(x@),
                None => None,
            },
        ),
{
    match c {
        Some(c) => {
            push_str(d, "\n  warmth curve depth ");
            push_number(d, &c.depth);
            push_str(d, ", tau ");
            push_number(d, &c.tau_s);
            push_str(d, " s, ");
            let t = c.source.describe();
            push_str(d, t.as_str());
        },
        None => {},
    }
}

impl Knobs {
    /// One line per table, with its source: what a report prints. See
    /// `spec_describe`. A float knob (a capture value, a residual, a
    /// warmth number) is printed as the text the file wrote it in, not
    /// as the number it parses to: `0.50` stays `0.50` and `1e-3` stays
    /// `1e-3`, where formatting the parsed `f64` would give `0.5` and
    /// `0.001`. The library holds no floating point to format.
    pub fn describe(&self) -> (d: String)
        ensures
            d@ == spec_describe(self@),
    {
        let mut d = String::new();
        push_str(&mut d, "knobs ");
        push_str(&mut d, self.path.as_str());
        push_str(&mut d, ":");
        push_alignment_line(&mut d, &self.alignment);
        push_capture_line(&mut d, &self.capture);
        push_fill_line(&mut d, &self.ram_fill);
        push_seed_line(&mut d, &self.ram_seed);
        push_warmth_line(&mut d, &self.warmth);
        push_curve_line(&mut d, &self.warmth_curve);
        d
    }
}

/// Once the first `k` tables refuse, so do the first `m`.
proof fn lemma_knobs_err_sticks(path: Seq<char>, ts: TablesView, k: int, m: int)
    requires
        0 <= k <= m,
        knobs_upto(path, ts, k) is Err,
    ensures
        knobs_upto(path, ts, m) == knobs_upto(path, ts, k),
    decreases m - k,
{
    if m > k {
        lemma_knobs_err_sticks(path, ts, k, m - 1);
    }
}

} // verus!
