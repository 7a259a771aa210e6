//! The decisions behind each command: which entries to show, which headers
//! to keep, what a search matches. Reading files and printing stay with the
//! caller.
use vstd::prelude::*;
use crate::expr::{FilterExpr, eval};
use crate::field::FilterError;
use crate::har::{Entry, Header, body_text};
use crate::output::OutputFormat;
use crate::decimal::{Decimal, ONE};
use crate::pattern::{Pattern, regex_compiles, regex_finds};
use crate::text::{contains, lower_of, lowercase, str_contains, same_chars, chars_of};

verus! {

/// The 0-based position of the 1-based entry `index` among `count`
/// entries; `None` when it is out of range.
pub fn entry_position(index: usize, count: usize) -> (r: Option<usize>)
    ensures
        r is Some <==> 1 <= index <= count,
        r matches Some(p) ==> p == index - 1,
{
    if index == 0 || index > count {
        None
    } else {
        Some(index - 1)
    }
}

/// `info`: archive metadata and summary.
#[derive(Clone, Debug)]
pub struct InfoCmd {
    pub file: String,
    pub output: OutputFormat,
}

/// How many entries in `es` use method `m`.
pub open spec fn method_count(es: Seq<Entry>, m: Seq<char>) -> nat
    decreases es.len(),
{
    if es.len() == 0 {
        0
    } else {
        method_count(es.drop_last(), m) + if es.last().request.method@ == m {
            1nat
        } else {
            0nat
        }
    }
}

/// How many entries in `es` have status `st`.
pub open spec fn status_count(es: Seq<Entry>, st: i32) -> nat
    decreases es.len(),
{
    if es.len() == 0 {
        0
    } else {
        status_count(es.drop_last(), st) + if es.last().response.status == st {
            1nat
        } else {
            0nat
        }
    }
}

/// `r` names each method used in `es` once, with the number of entries that use it.
pub open spec fn tallies_methods(r: Seq<(String, usize)>, es: Seq<Entry>) -> bool {
    &&& forall|i: int, j: int| 0 <= i < j < r.len() ==> r[i].0@ != r[j].0@
    &&& forall|i: int|
        0 <= i < r.len() ==> #[trigger] r[i].1 == method_count(es, r[i].0@) && r[i].1 > 0
    &&& forall|k: int|
        0 <= k < es.len() ==> exists|i: int| 0 <= i < r.len() && r[i].0@ == #[trigger] es[k].request.method@
}

/// `r` names each status found in `es` once, with the number of entries that have it.
pub open spec fn tallies_statuses(r: Seq<(i32, usize)>, es: Seq<Entry>) -> bool {
    &&& forall|i: int, j: int| 0 <= i < j < r.len() ==> r[i].0 != r[j].0
    &&& forall|i: int|
        0 <= i < r.len() ==> #[trigger] r[i].1 == status_count(es, r[i].0) && r[i].1 > 0
    &&& forall|k: int|
        0 <= k < es.len() ==> exists|i: int| 0 <= i < r.len() && r[i].0 == #[trigger] es[k].response.status
}

proof fn lemma_method_count_bounds(es: Seq<Entry>, m: Seq<char>)
    ensures
        method_count(es, m) <= es.len(),
        (forall|k: int| 0 <= k < es.len() ==> #[trigger] es[k].request.method@ != m) ==> method_count(es, m) == 0,
    decreases es.len(),
{
    if es.len() > 0 {
        lemma_method_count_bounds(es.drop_last(), m);
        assert forall|k: int| 0 <= k < es.drop_last().len() implies #[trigger] es.drop_last()[k] == es[k] by {}
    }
}

proof fn lemma_status_count_bounds(es: Seq<Entry>, st: i32)
    ensures
        status_count(es, st) <= es.len(),
        (forall|k: int| 0 <= k < es.len() ==> #[trigger] es[k].response.status != st) ==> status_count(es, st) == 0,
    decreases es.len(),
{
    if es.len() > 0 {
        lemma_status_count_bounds(es.drop_last(), st);
        assert forall|k: int| 0 <= k < es.drop_last().len() implies #[trigger] es.drop_last()[k] == es[k] by {}
    }
}

impl InfoCmd {
    /// Each method used by `entries`, once, in order of first use, with how
    /// many entries use it.
    pub fn method_counts(entries: &Vec<Entry>) -> (r: Vec<(String, usize)>)
        ensures
            tallies_methods(r@, entries@),
    {
        let mut r: Vec<(String, usize)> = Vec::new();
        let mut i: usize = 0;
        while i < entries.len()
            invariant
                i <= entries@.len(),
                tallies_methods(r@, entries@.subrange(0, i as int)),
            decreases entries@.len() - i,
        {
            let ghost pre = entries@.subrange(0, i as int);
            let ghost next = entries@.subrange(0, i + 1);
            assert(next.drop_last() =~= pre);
            let m = &entries[i].request.method;
            let mut j: usize = 0;
            while j < r.len() && !same_chars(&chars_of(r[j].0.as_str()), &chars_of(m.as_str()))
                invariant
                    j <= r@.len(),
                    forall|k: int| 0 <= k < j ==> r@[k].0@ != m@,
                decreases r@.len() - j,
            {
                j = j + 1;
            }
            let ghost old_r = r@;
            if j < r.len() {
                proof {
                    lemma_method_count_bounds(pre, m@);
                }
                let (name, count) = r.remove(j);
                r.insert(j, (name, count + 1));
                assert forall|k: int| 0 <= k < r@.len() implies r@[k].0@ == old_r[k].0@ by {}
            } else {
                proof {
                    assert forall|k: int| 0 <= k < pre.len() implies #[trigger] pre[k].request.method@ != m@ by {
                        let w = choose|w: int| 0 <= w < old_r.len() && old_r[w].0@ == pre[k].request.method@;
                    }
                    lemma_method_count_bounds(pre, m@);
                }
                r.push((m.clone(), 1));
            }
            assert forall|k: int| 0 <= k < next.len() implies exists|w: int|
                0 <= w < r@.len() && r@[w].0@ == #[trigger] next[k].request.method@ by {
                if k < i {
                    assert(next[k] == pre[k]);
                    let w = choose|w: int| 0 <= w < old_r.len() && old_r[w].0@ == pre[k].request.method@;
                    assert(r@[w].0@ == old_r[w].0@);
                } else {
                    assert(r@[j as int].0@ == m@);
                }
            }
            assert forall|k: int| 0 <= k < r@.len() implies #[trigger] r@[k].1 == method_count(next, r@[k].0@) && r@[k].1 > 0 by {
                if k < old_r.len() {
                    assert(r@[k].0@ == old_r[k].0@);
                }
            }
            i = i + 1;
        }
        assert(entries@.subrange(0, entries@.len() as int) =~= entries@);
        r
    }

    /// Each status found in `entries`, once, in order of first appearance,
    /// with how many entries have it.
    pub fn status_counts(entries: &Vec<Entry>) -> (r: Vec<(i32, usize)>)
        ensures
            tallies_statuses(r@, entries@),
    {
        let mut r: Vec<(i32, usize)> = Vec::new();
        let mut i: usize = 0;
        while i < entries.len()
            invariant
                i <= entries@.len(),
                tallies_statuses(r@, entries@.subrange(0, i as int)),
            decreases entries@.len() - i,
        {
            let ghost pre = entries@.subrange(0, i as int);
            let ghost next = entries@.subrange(0, i + 1);
            assert(next.drop_last() =~= pre);
            let st = entries[i].response.status;
            let mut j: usize = 0;
            while j < r.len() && r[j].0 != st
                invariant
                    j <= r@.len(),
                    forall|k: int| 0 <= k < j ==> r@[k].0 != st,
                decreases r@.len() - j,
            {
                j = j + 1;
            }
            let ghost old_r = r@;
            if j < r.len() {
                proof {
                    lemma_status_count_bounds(pre, st);
                }
                let (code, count) = r.remove(j);
                r.insert(j, (code, count + 1));
                assert forall|k: int| 0 <= k < r@.len() implies r@[k].0 == old_r[k].0 by {}
            } else {
                proof {
                    assert forall|k: int| 0 <= k < pre.len() implies #[trigger] pre[k].response.status != st by {
                        let w = choose|w: int| 0 <= w < old_r.len() && old_r[w].0 == pre[k].response.status;
                    }
                    lemma_status_count_bounds(pre, st);
                }
                r.push((st, 1));
            }
            assert forall|k: int| 0 <= k < next.len() implies exists|w: int|
                0 <= w < r@.len() && r@[w].0 == #[trigger] next[k].response.status by {
                if k < i {
                    assert(next[k] == pre[k]);
                    let w = choose|w: int| 0 <= w < old_r.len() && old_r[w].0 == pre[k].response.status;
                    assert(r@[w].0 == old_r[w].0);
                } else {
                    assert(r@[j as int].0 == st);
                }
            }
            assert forall|k: int| 0 <= k < r@.len() implies #[trigger] r@[k].1 == status_count(next, r@[k].0) && r@[k].1 > 0 by {
                if k < old_r.len() {
                    assert(r@[k].0 == old_r[k].0);
                }
            }
            i = i + 1;
        }
        assert(entries@.subrange(0, entries@.len() as int) =~= entries@);
        r
    }
}

impl InfoCmd {
    /// The 1-based positions of `tallies` from most entries to fewest,
    /// equal counts in their listed order.
    pub fn method_order(tallies: &Vec<(String, usize)>) -> (r: Vec<usize>)
        ensures
            r@.len() == tallies@.len(),
            forall|k: int| 0 <= k < r@.len() ==> 1 <= #[trigger] r@[k] <= tallies@.len(),
            forall|a: int, b: int|
                0 <= a < b < r@.len() ==> sorts_before(
                    tallies@[r@[a] - 1].1 as int,
                    r@[a] as int,
                    tallies@[r@[b] - 1].1 as int,
                    r@[b] as int,
                    false,
                ),
            forall|j: int| 1 <= j <= tallies@.len() ==> #[trigger] covers(r@, j),
    {
        let mut keys: Vec<i128> = Vec::new();
        let mut i: usize = 0;
        while i < tallies.len()
            invariant
                i <= tallies@.len(),
                keys@.len() == i,
                forall|k: int| 0 <= k < i ==> #[trigger] keys@[k] == tallies@[k].1 as int,
            decreases tallies@.len() - i,
        {
            keys.push(tallies[i].1 as i128);
            i = i + 1;
        }
        let r = order_by_keys(&keys, false);
        assert forall|a: int, b: int| 0 <= a < b < r@.len() implies sorts_before(
            tallies@[r@[a] - 1].1 as int,
            r@[a] as int,
            tallies@[r@[b] - 1].1 as int,
            r@[b] as int,
            false,
        ) by {
            assert(keys@[r@[a] - 1] == tallies@[r@[a] - 1].1 as int);
            assert(keys@[r@[b] - 1] == tallies@[r@[b] - 1].1 as int);
        }
        r
    }

    /// The 1-based positions of `tallies` by status code, lowest first.
    pub fn status_order(tallies: &Vec<(i32, usize)>) -> (r: Vec<usize>)
        ensures
            r@.len() == tallies@.len(),
            forall|k: int| 0 <= k < r@.len() ==> 1 <= #[trigger] r@[k] <= tallies@.len(),
            forall|a: int, b: int|
                0 <= a < b < r@.len() ==> sorts_before(
                    tallies@[r@[a] - 1].0 as int,
                    r@[a] as int,
                    tallies@[r@[b] - 1].0 as int,
                    r@[b] as int,
                    true,
                ),
            forall|j: int| 1 <= j <= tallies@.len() ==> #[trigger] covers(r@, j),
    {
        let mut keys: Vec<i128> = Vec::new();
        let mut i: usize = 0;
        while i < tallies.len()
            invariant
                i <= tallies@.len(),
                keys@.len() == i,
                forall|k: int| 0 <= k < i ==> #[trigger] keys@[k] == tallies@[k].0 as int,
            decreases tallies@.len() - i,
        {
            keys.push(tallies[i].0 as i128);
            i = i + 1;
        }
        let r = order_by_keys(&keys, true);
        assert forall|a: int, b: int| 0 <= a < b < r@.len() implies sorts_before(
            tallies@[r@[a] - 1].0 as int,
            r@[a] as int,
            tallies@[r@[b] - 1].0 as int,
            r@[b] as int,
            true,
        ) by {
            assert(keys@[r@[a] - 1] == tallies@[r@[a] - 1].0 as int);
            assert(keys@[r@[b] - 1] == tallies@[r@[b] - 1].0 as int);
        }
        r
    }
}

/// `count`: the number of entries.
#[derive(Clone, Debug)]
pub struct CountCmd {
    pub file: String,
}

/// `body`: one entry's request or response body.
#[derive(Clone, Debug)]
pub struct BodyCmd {
    pub index: usize,
    pub file: String,
    pub request: bool,
    pub pretty: bool,
    pub raw: bool,
}

/// `view`: one entry in detail.
#[derive(Clone, Debug)]
pub struct ViewCmd {
    pub index: usize,
    pub file: String,
    pub output: OutputFormat,
    pub full: bool,
    pub no_body: bool,
    pub headers_only: bool,
}

impl ViewCmd {
    /// Bodies are shown only in full mode, and not when hidden or when only
    /// headers are asked for.
    pub fn show_body(&self) -> (r: bool)
        ensures
            r == (self.full && !self.no_body && !self.headers_only),
    {
        self.full && !self.no_body && !self.headers_only
    }
}

/// `timing`: the phases of each entry.
#[derive(Clone, Debug)]
pub struct TimingCmd {
    pub file: String,
    pub output: OutputFormat,
    pub sort: Option<String>,
    pub reverse: bool,
    pub stats: bool,
    pub limit: Option<usize>,
}

/// A phase as a sort key: its units, or -1 ms when it is missing.
pub open spec fn phase_key(d: Option<Decimal>) -> int {
    match d {
        Some(x) => x.units as int,
        None => -ONE,
    }
}

/// The sort key of `e` for the column `name`: a phase for `dns`, `connect`,
/// `ssl`, `wait`, `receive`, `blocked` or `send`, else the total time.
pub open spec fn timing_key(e: Entry, name: Seq<char>) -> int {
    if name == "dns"@ {
        phase_key(e.timings.dns)
    } else if name == "connect"@ {
        phase_key(e.timings.connect)
    } else if name == "ssl"@ {
        phase_key(e.timings.ssl)
    } else if name == "wait"@ {
        phase_key(e.timings.wait)
    } else if name == "receive"@ {
        phase_key(e.timings.receive)
    } else if name == "blocked"@ {
        phase_key(e.timings.blocked)
    } else if name == "send"@ {
        phase_key(e.timings.send)
    } else {
        e.time.units as int
    }
}

/// Entry `a` (key `ka`) comes before entry `b` (key `kb`): larger keys
/// first, smaller first when `reverse`, and equal keys in entry order.
pub open spec fn sorts_before(ka: int, a: int, kb: int, b: int, reverse: bool) -> bool {
    if ka != kb {
        if reverse {
            ka < kb
        } else {
            ka > kb
        }
    } else {
        a < b
    }
}

fn phase_key_exec(d: Option<Decimal>) -> (r: i128)
    ensures
        r == phase_key(d),
{
    match d {
        Some(x) => x.units,
        None => -ONE,
    }
}

fn timing_key_exec(e: &Entry, name: &Vec<char>) -> (r: i128)
    ensures
        r == timing_key(*e, name@),
{
    if same_chars(name, &chars_of("dns")) {
        phase_key_exec(e.timings.dns)
    } else if same_chars(name, &chars_of("connect")) {
        phase_key_exec(e.timings.connect)
    } else if same_chars(name, &chars_of("ssl")) {
        phase_key_exec(e.timings.ssl)
    } else if same_chars(name, &chars_of("wait")) {
        phase_key_exec(e.timings.wait)
    } else if same_chars(name, &chars_of("receive")) {
        phase_key_exec(e.timings.receive)
    } else if same_chars(name, &chars_of("blocked")) {
        phase_key_exec(e.timings.blocked)
    } else if same_chars(name, &chars_of("send")) {
        phase_key_exec(e.timings.send)
    } else {
        e.time.units
    }
}

impl TimingCmd {
    /// How many rows the listing keeps out of `n`.
    pub open spec fn kept_rows(self, n: nat) -> nat {
        match self.limit {
            Some(l) => if (l as nat) < n {
                l as nat
            } else {
                n
            },
            None => n,
        }
    }

    /// The 1-based entry indices in listing order. Unsorted, they run in
    /// entry order; sorted by a column, they are ordered by `sorts_before`
    /// (a stable sort) and the rows kept come before every row dropped
    /// (every index that `covers` does not find in the result).
    /// At most `limit` rows are kept.
    pub fn row_order(&self, entries: &Vec<Entry>) -> (r: Vec<usize>)
        ensures
            r@.len() == self.kept_rows(entries@.len()),
            forall|k: int| 0 <= k < r@.len() ==> 1 <= #[trigger] r@[k] <= entries@.len(),
            self.sort is None ==> forall|k: int| 0 <= k < r@.len() ==> #[trigger] r@[k] == k + 1,
            self.sort matches Some(name) ==> forall|a: int, b: int|
                0 <= a < b < r@.len() ==> sorts_before(
                    timing_key(entries@[r@[a] - 1], name@),
                    r@[a] as int,
                    timing_key(entries@[r@[b] - 1], name@),
                    r@[b] as int,
                    self.reverse,
                ),
            self.sort matches Some(name) ==> forall|k: int, j: int|
                #![trigger r@[k], covers(r@, j)]
                0 <= k < r@.len() && 1 <= j <= entries@.len() && !covers(r@, j) ==> sorts_before(
                    timing_key(entries@[r@[k] - 1], name@),
                    r@[k] as int,
                    timing_key(entries@[j - 1], name@),
                    j,
                    self.reverse,
                ),
    {
        let n = entries.len();
        let m: usize = match self.limit {
            Some(l) => if l < n {
                l
            } else {
                n
            },
            None => n,
        };
        match &self.sort {
            None => {
                let mut r: Vec<usize> = Vec::new();
                let mut i: usize = 0;
                while i < m
                    invariant
                        i <= m <= n == entries@.len(),
                        r@.len() == i,
                        forall|k: int| 0 <= k < i ==> #[trigger] r@[k] == k + 1,
                    decreases m - i,
                {
                    r.push(i + 1);
                    i = i + 1;
                }
                r
            },
            Some(name) => {
                let nm = chars_of(name.as_str());
                let mut r = sorted_rows(entries, &nm, self.reverse);
                let ghost full = r@;
                r.truncate(m);
                assert forall|k: int, j: int|
                    #![trigger r@[k], covers(r@, j)]
                    0 <= k < r@.len() && 1 <= j <= entries@.len() && !covers(r@, j) implies sorts_before(
                    timing_key(entries@[r@[k] - 1], nm@),
                    r@[k] as int,
                    timing_key(entries@[j - 1], nm@),
                    j,
                    self.reverse,
                ) by {
                    assert(covers(full, j));
                    let w = choose|w: int| 0 <= w < full.len() && full[w] == j;
                    if w < m {
                        assert(r@[w] == j);
                        assert(covers(r@, j));
                    }
                    assert(full[k] == r@[k]);
                }
                r
            },
        }
    }
}

/// `j` stands somewhere in `r`.
pub open spec fn covers(r: Seq<usize>, j: int) -> bool {
    exists|w: int| 0 <= w < r.len() && r[w] == j
}

/// Key `a` strictly comes first before key `b`.
fn key_first(a: i128, b: i128, reverse: bool) -> (r: bool)
    ensures
        r == (if reverse {
            a < b
        } else {
            a > b
        }),
{
    if reverse {
        a < b
    } else {
        a > b
    }
}

/// All 1-based entry indices, stably sorted by `timing_key` for `name`.
fn sorted_rows(entries: &Vec<Entry>, name: &Vec<char>, reverse: bool) -> (r: Vec<usize>)
    ensures
        r@.len() == entries@.len(),
        forall|k: int| 0 <= k < r@.len() ==> 1 <= #[trigger] r@[k] <= entries@.len(),
        forall|a: int, b: int|
            0 <= a < b < r@.len() ==> sorts_before(
                timing_key(entries@[r@[a] - 1], name@),
                r@[a] as int,
                timing_key(entries@[r@[b] - 1], name@),
                r@[b] as int,
                reverse,
            ),
        forall|j: int| 1 <= j <= entries@.len() ==> #[trigger] covers(r@, j),
{
    let n = entries.len();
    let mut keys: Vec<i128> = Vec::new();
    let mut i: usize = 0;
    while i < n
        invariant
            i <= n == entries@.len(),
            keys@.len() == i,
            forall|k: int| 0 <= k < i ==> #[trigger] keys@[k] == timing_key(entries@[k], name@),
        decreases n - i,
    {
        keys.push(timing_key_exec(&entries[i], name));
        i = i + 1;
    }
    let r = order_by_keys(&keys, reverse);
    assert forall|a: int, b: int| 0 <= a < b < r@.len() implies sorts_before(
        timing_key(entries@[r@[a] - 1], name@),
        r@[a] as int,
        timing_key(entries@[r@[b] - 1], name@),
        r@[b] as int,
        reverse,
    ) by {
        assert(keys@[r@[a] - 1] == timing_key(entries@[r@[a] - 1], name@));
        assert(keys@[r@[b] - 1] == timing_key(entries@[r@[b] - 1], name@));
    }
    r
}

/// The 1-based positions of `keys`, stably sorted by key: larger keys
/// first, or smaller first when `reverse` (see `sorts_before`).
pub fn order_by_keys(keys: &Vec<i128>, reverse: bool) -> (r: Vec<usize>)
    ensures
        r@.len() == keys@.len(),
        forall|k: int| 0 <= k < r@.len() ==> 1 <= #[trigger] r@[k] <= keys@.len(),
        forall|a: int, b: int|
            0 <= a < b < r@.len() ==> sorts_before(
                keys@[r@[a] - 1] as int,
                r@[a] as int,
                keys@[r@[b] - 1] as int,
                r@[b] as int,
                reverse,
            ),
        forall|j: int| 1 <= j <= keys@.len() ==> #[trigger] covers(r@, j),
{
    let n = keys.len();
    let mut r: Vec<usize> = Vec::new();
    let mut i: usize = 0;
    while i < n
        invariant
            i <= n == keys@.len(),
            r@.len() == i,
            forall|k: int| 0 <= k < r@.len() ==> 1 <= #[trigger] r@[k] <= i,
            forall|a: int, b: int|
                0 <= a < b < r@.len() ==> sorts_before(
                    keys@[r@[a] - 1] as int,
                    r@[a] as int,
                    keys@[r@[b] - 1] as int,
                    r@[b] as int,
                    reverse,
                ),
            forall|j: int| 1 <= j <= i ==> #[trigger] covers(r@, j),
        decreases n - i,
    {
        let kv = keys[i];
        let v = i + 1;
        let mut p: usize = 0;
        while p < r.len() && !key_first(kv, keys[r[p] - 1], reverse)
            invariant
                p <= r@.len() == i,
                i < n == keys@.len(),
                kv == keys@[i as int],
                v == i + 1,
                forall|k: int| 0 <= k < r@.len() ==> 1 <= #[trigger] r@[k] <= i,
                forall|k: int|
                    0 <= k < p ==> !sorts_before(
                        kv as int,
                        v as int,
                        keys@[r@[k] - 1] as int,
                        #[trigger] r@[k] as int,
                        reverse,
                    ),
            decreases r@.len() - p,
        {
            assert(1 <= r@[p as int] <= i);
            assert(!sorts_before(
                kv as int,
                v as int,
                keys@[r@[p as int] - 1] as int,
                r@[p as int] as int,
                reverse,
            ));
            p = p + 1;
        }
        let ghost old_r = r@;
        proof {
            old_r.insert_ensures(p as int, v);
        }
        r.insert(p, v);
        assert forall|a: int, b: int| 0 <= a < b < r@.len() implies sorts_before(
            keys@[r@[a] - 1] as int,
            r@[a] as int,
            keys@[r@[b] - 1] as int,
            r@[b] as int,
            reverse,
        ) by {
            if b < p {
                assert(r@[a] == old_r[a] && r@[b] == old_r[b]);
            } else if b == p {
                assert(r@[a] == old_r[a]);
            } else if a == p {
                assert(r@[b] == old_r[b - 1]);
                if b - 1 > p {
                    assert(sorts_before(
                        keys@[old_r[p as int] - 1] as int,
                        old_r[p as int] as int,
                        keys@[old_r[b - 1] - 1] as int,
                        old_r[b - 1] as int,
                        reverse,
                    ));
                }
            } else if a < p {
                assert(r@[a] == old_r[a] && r@[b] == old_r[b - 1]);
            } else {
                assert(r@[a] == old_r[a - 1] && r@[b] == old_r[b - 1]);
            }
        }
        assert forall|j: int| 1 <= j <= i + 1 implies #[trigger] covers(r@, j) by {
            if j == i + 1 {
                assert(r@[p as int] == j);
            } else {
                assert(covers(old_r, j));
                let w = choose|w: int| 0 <= w < old_r.len() && old_r[w] == j;
                if w < p {
                    assert(r@[w] == j);
                } else {
                    assert(r@[w + 1] == j);
                }
            }
        }
        i = i + 1;
    }
    r
}

/// `filter`: the entries that an expression accepts.
#[derive(Clone, Debug)]
pub struct FilterCmd {
    pub expr: String,
    pub file: String,
    pub entries_only: bool,
}

/// The 1-based indices, in order, of the entries in `es` that `e` accepts.
pub open spec fn accepted(e: FilterExpr, es: Seq<Entry>) -> Seq<usize>
    decreases es.len(),
{
    if es.len() == 0 {
        Seq::empty()
    } else if eval(e, es.last()) {
        accepted(e, es.drop_last()).push(es.len() as usize)
    } else {
        accepted(e, es.drop_last())
    }
}

impl FilterCmd {
    /// The 1-based indices of the entries that `filter` accepts, in order.
    pub fn matching_indices(filter: &FilterExpr, entries: &Vec<Entry>) -> (r: Vec<usize>)
        ensures
            r@ == accepted(*filter, entries@),
    {
        let mut r: Vec<usize> = Vec::new();
        let mut i: usize = 0;
        while i < entries.len()
            invariant
                i <= entries@.len(),
                r@ == accepted(*filter, entries@.subrange(0, i as int)),
            decreases entries@.len() - i,
        {
            assert(entries@.subrange(0, i + 1).drop_last() =~= entries@.subrange(0, i as int));
            if filter.matches(&entries[i]) {
                r.push(i + 1);
            }
            i = i + 1;
        }
        assert(entries@.subrange(0, entries@.len() as int) =~= entries@);
        r
    }
}

/// `list`: entries as a table, with head, tail or limit.
#[derive(Clone, Debug)]
pub struct ListCmd {
    pub file: String,
    pub output: OutputFormat,
    pub limit: Option<usize>,
    pub head: Option<usize>,
    pub tail: Option<usize>,
    pub max_url: usize,
    pub long: bool,
}

pub open spec fn take<T>(s: Seq<T>, n: nat) -> Seq<T> {
    if n < s.len() {
        s.subrange(0, n as int)
    } else {
        s
    }
}

impl ListCmd {
    /// What remains of `s` after the first of `head` (the first n), `tail`
    /// (the last n) and `limit` (the first n) that is set.
    pub open spec fn limited<T>(self, s: Seq<T>) -> Seq<T> {
        if self.head is Some {
            take(s, self.head->Some_0 as nat)
        } else if self.tail is Some {
            let n = self.tail->Some_0;
            if n < s.len() {
                s.subrange(s.len() - n, s.len() as int)
            } else {
                s
            }
        } else if self.limit is Some {
            take(s, self.limit->Some_0 as nat)
        } else {
            s
        }
    }

    /// See `limited`.
    pub fn apply_limits<T>(&self, entries: Vec<T>) -> (r: Vec<T>)
        ensures
            r@ == self.limited(entries@),
    {
        let len = entries.len();
        let mut v = entries;
        if let Some(head) = self.head {
            v.truncate(head);
            return v;
        }
        if let Some(tail) = self.tail {
            let start = if tail < len {
                len - tail
            } else {
                0
            };
            let rest = v.split_off(start);
            assert(start == 0 ==> rest@ =~= entries@);
            return rest;
        }
        if let Some(limit) = self.limit {
            v.truncate(limit);
            return v;
        }
        v
    }
}

/// `headers`: one entry's headers, optionally filtered by name.
#[derive(Clone, Debug)]
pub struct HeadersCmd {
    pub index: String,
    pub file: String,
    pub output: OutputFormat,
    pub request: bool,
    pub response: bool,
    pub filter: Option<String>,
}

impl HeadersCmd {
    /// Request headers are shown unless only response headers are asked for.
    pub fn show_request(&self) -> (r: bool)
        ensures
            r == (self.request || !self.response),
    {
        self.request || (!self.request && !self.response)
    }

    /// Response headers are shown unless only request headers are asked for.
    pub fn show_response(&self) -> (r: bool)
        ensures
            r == (self.response || !self.request),
    {
        self.response || (!self.request && !self.response)
    }

    /// A header name passes when there is no filter, or when its lowercase
    /// form contains the filter's lowercase form.
    pub fn matches_filter(&self, name: &str) -> (r: bool)
        ensures
            r == match self.filter {
                None => true,
                Some(f) => contains(lower_of(name@), lower_of(f@)),
            },
    {
        match &self.filter {
            None => true,
            Some(f) => str_contains(lowercase(name).as_str(), lowercase(f.as_str()).as_str()),
        }
    }
}

/// `search`: entries whose URL, headers or bodies match a pattern.
#[derive(Clone, Debug)]
pub struct SearchCmd {
    pub pattern: String,
    pub file: String,
    pub output: OutputFormat,
    pub ignore_case: bool,
    pub regex: bool,
    pub headers: bool,
    pub body: bool,
    pub url: bool,
    pub invert: bool,
    pub count: bool,
    pub max_url: usize,
}

/// How a search tests a text.
#[derive(Debug)]
pub enum Matcher {
    /// Substring search; with `ignore_case` the text is lowercased first
    /// (the pattern is stored lowercased).
    Text { pattern: String, ignore_case: bool },
    Regex(Pattern),
}

impl Matcher {
    pub open spec fn finds(self, text: Seq<char>) -> bool {
        match self {
            Matcher::Text { pattern, ignore_case } => if ignore_case {
                contains(lower_of(text), pattern@)
            } else {
                contains(text, pattern@)
            },
            Matcher::Regex(p) => regex_finds(p.source(), text),
        }
    }

    /// See `finds`.
    pub fn matches(&self, text: &str) -> (r: bool)
        ensures
            r == self.finds(text@),
    {
        match self {
            Matcher::Text { pattern, ignore_case } => {
                if *ignore_case {
                    str_contains(lowercase(text).as_str(), pattern.as_str())
                } else {
                    str_contains(text, pattern.as_str())
                }
            },
            Matcher::Regex(re) => re.is_match(text),
        }
    }
}

/// The header's name or value satisfies `m`.
pub open spec fn header_found(m: Matcher, h: Header) -> bool {
    m.finds(h.name@) || m.finds(h.value@)
}

/// Some header's name or value satisfies `m`.
pub open spec fn any_header(m: Matcher, hs: Seq<Header>) -> bool {
    exists|i: int| 0 <= i < hs.len() && header_found(m, #[trigger] hs[i])
}

impl SearchCmd {
    /// The regular expression a regex search compiles.
    pub open spec fn regex_text(self) -> Seq<char> {
        if self.ignore_case {
            "(?i)"@ + self.pattern@
        } else {
            self.pattern@
        }
    }

    /// Searches the URL when asked, or when neither headers nor bodies are.
    pub open spec fn searches_url(self) -> bool {
        self.url || (!self.headers && !self.body)
    }

    /// Whether `m` finds something in `e` where this search looks: the URL;
    /// the request and response header names and values; the request body
    /// text and the response body text.
    pub open spec fn hit(self, m: Matcher, e: Entry) -> bool {
        ||| self.searches_url() && m.finds(e.request.url@)
        ||| self.headers && (any_header(m, e.request.headers@) || any_header(
            m,
            e.response.headers@,
        ))
        ||| self.body && ((e.request.post_data matches Some(pd) && pd.text matches Some(t)
            && m.finds(t@)) || (body_text(e.response.content) matches Some(t) && m.finds(t)))
    }

    /// The 1-based indices, in order, of the entries in `es` that this search
    /// keeps: those it finds something in, or with `invert` the others.
    pub open spec fn kept(self, m: Matcher, es: Seq<Entry>) -> Seq<usize>
        decreases es.len(),
    {
        if es.len() == 0 {
            Seq::empty()
        } else if self.hit(m, es.last()) != self.invert {
            self.kept(m, es.drop_last()).push(es.len() as usize)
        } else {
            self.kept(m, es.drop_last())
        }
    }

    /// See `kept`.
    pub fn kept_indices(&self, entries: &Vec<Entry>, matcher: &Matcher) -> (r: Vec<usize>)
        ensures
            r@ == self.kept(*matcher, entries@),
    {
        let mut r: Vec<usize> = Vec::new();
        let mut i: usize = 0;
        while i < entries.len()
            invariant
                i <= entries@.len(),
                r@ == self.kept(*matcher, entries@.subrange(0, i as int)),
            decreases entries@.len() - i,
        {
            assert(entries@.subrange(0, i + 1).drop_last() =~= entries@.subrange(0, i as int));
            if self.entry_matches(&entries[i], matcher) != self.invert {
                r.push(i + 1);
            }
            i = i + 1;
        }
        assert(entries@.subrange(0, entries@.len() as int) =~= entries@);
        r
    }

    /// The matcher for this search: a compiled pattern (case-insensitive
    /// when asked), or the text to look for (lowercased when case is ignored).
    pub fn create_matcher(&self) -> (r: Result<Matcher, FilterError>)
        ensures
            self.regex ==> (r is Ok <==> regex_compiles(self.regex_text())),
            self.regex ==> (r matches Ok(m) ==> m matches Matcher::Regex(p) && p.source()
                == self.regex_text()),
            self.regex ==> (r matches Err(e) ==> e is InvalidRegex),
            !self.regex ==> (r matches Ok(m) && m matches Matcher::Text { pattern, ignore_case }
                && ignore_case == self.ignore_case && pattern@ == (if self.ignore_case {
                lower_of(self.pattern@)
            } else {
                self.pattern@
            })),
    {
        if self.regex {
            proof {
                reveal_strlit("(?i)");
            }
            let source = if self.ignore_case {
                "(?i)".to_owned().concat(self.pattern.as_str())
            } else {
                self.pattern.clone()
            };
            match Pattern::compile(source.as_str()) {
                Ok(p) => Ok(Matcher::Regex(p)),
                Err(_) => Err(FilterError::InvalidRegex(source)),
            }
        } else {
            let pattern = if self.ignore_case {
                lowercase(self.pattern.as_str())
            } else {
                self.pattern.clone()
            };
            Ok(Matcher::Text { pattern, ignore_case: self.ignore_case })
        }
    }

    /// See `hit`.
    pub fn entry_matches(&self, entry: &Entry, matcher: &Matcher) -> (r: bool)
        ensures
            r == self.hit(*matcher, *entry),
    {
        let search_url = self.url || (!self.headers && !self.body);
        if search_url && matcher.matches(entry.request.url.as_str()) {
            return true;
        }
        if self.headers {
            if header_hit(matcher, &entry.request.headers) {
                return true;
            }
            if header_hit(matcher, &entry.response.headers) {
                return true;
            }
        }
        if self.body {
            if let Some(pd) = &entry.request.post_data {
                if let Some(text) = &pd.text {
                    if matcher.matches(text.as_str()) {
                        return true;
                    }
                }
            }
            if let Some(text) = entry.response.content.text_content() {
                if matcher.matches(text.as_str()) {
                    return true;
                }
            }
        }
        false
    }
}

/// See `any_header`.
fn header_hit(m: &Matcher, hs: &Vec<Header>) -> (r: bool)
    ensures
        r == any_header(*m, hs@),
{
    let mut i: usize = 0;
    while i < hs.len()
        invariant
            i <= hs@.len(),
            forall|j: int| 0 <= j < i ==> !header_found(*m, #[trigger] hs@[j]),
        decreases hs@.len() - i,
    {
        let h = &hs[i];
        if m.matches(h.name.as_str()) || m.matches(h.value.as_str()) {
            assert(header_found(*m, hs@[i as int]));
            return true;
        }
        i = i + 1;
    }
    false
}

} // verus!
