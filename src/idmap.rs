use vstd::prelude::*;

use crate::text::{field_at, field_at_exec, skip_blanks, skip_blanks_exec};
use crate::types::{Error, ErrorKind};

verus! {

/// The id that stands for every id outside the ranges of a map.
pub const OVERFLOW_ID: u32 = 65534;

/// One line of a user-namespace id map: `length` consecutive ids starting at
/// `ns_start` inside the namespace stand for those starting at `host_start`
/// on the host.
#[derive(Clone, Copy, Debug, PartialEq, Eq)]
pub struct IdRange {
    pub ns_start: u32,
    pub host_start: u32,
    pub length: u32,
}

impl IdRange {
    pub open spec fn ns_end(self) -> int {
        self.ns_start + self.length
    }

    pub open spec fn host_end(self) -> int {
        self.host_start + self.length
    }

    /// Both ends of the range lie within the 32-bit id space.
    pub open spec fn fits(self) -> bool {
        self.ns_end() <= u32::MAX + 1 && self.host_end() <= u32::MAX + 1
    }

    pub open spec fn holds_host(self, id: int) -> bool {
        self.host_start <= id < self.host_end()
    }

    pub open spec fn holds_ns(self, id: int) -> bool {
        self.ns_start <= id < self.ns_end()
    }
}

/// The ranges fit the id space, are sorted by their namespace start, and
/// overlap neither inside the namespace nor on the host.
pub open spec fn ranges_wf(rs: Seq<IdRange>) -> bool {
    &&& forall|i: int| 0 <= i < rs.len() ==> #[trigger] rs[i].fits()
    &&& forall|i: int, j: int|
        0 <= i < j < rs.len() ==> {
            &&& #[trigger] rs[i].ns_end() <= #[trigger] rs[j].ns_start
            &&& (rs[i].host_end() <= rs[j].host_start || rs[j].host_end() <= rs[i].host_start)
        }
}

/// The namespace id that host id `h` stands for: taken from the first range
/// that holds `h` on the host, or the overflow id when none does.
pub open spec fn spec_map_up(rs: Seq<IdRange>, h: int) -> int
    decreases rs.len(),
{
    if rs.len() == 0 {
        OVERFLOW_ID as int
    } else if rs[0].holds_host(h) {
        rs[0].ns_start + (h - rs[0].host_start)
    } else {
        spec_map_up(rs.drop_first(), h)
    }
}

/// The host id that namespace id `n` stands for: taken from the first range
/// that holds `n` in the namespace, or the overflow id when none does.
pub open spec fn spec_map_down(rs: Seq<IdRange>, n: int) -> int
    decreases rs.len(),
{
    if rs.len() == 0 {
        OVERFLOW_ID as int
    } else if rs[0].holds_ns(n) {
        rs[0].host_start + (n - rs[0].ns_start)
    } else {
        spec_map_down(rs.drop_first(), n)
    }
}

proof fn lemma_up_at(rs: Seq<IdRange>, i: int, h: int)
    requires
        0 <= i < rs.len(),
        rs[i].holds_host(h),
        forall|j: int| 0 <= j < i ==> !(#[trigger] rs[j].holds_host(h)),
    ensures
        spec_map_up(rs, h) == rs[i].ns_start + (h - rs[i].host_start),
    decreases i,
{
    if i > 0 {
        assert(!rs[0].holds_host(h));
        let tail = rs.drop_first();
        assert forall|j: int| 0 <= j < i - 1 implies !(#[trigger] tail[j].holds_host(h)) by {
            assert(tail[j] == rs[j + 1]);
        }
        lemma_up_at(tail, i - 1, h);
    }
}

proof fn lemma_up_none(rs: Seq<IdRange>, h: int)
    requires
        forall|j: int| 0 <= j < rs.len() ==> !(#[trigger] rs[j].holds_host(h)),
    ensures
        spec_map_up(rs, h) == OVERFLOW_ID as int,
    decreases rs.len(),
{
    if rs.len() > 0 {
        assert(!rs[0].holds_host(h));
        let tail = rs.drop_first();
        assert forall|j: int| 0 <= j < tail.len() implies !(#[trigger] tail[j].holds_host(h)) by {
            assert(tail[j] == rs[j + 1]);
        }
        lemma_up_none(tail, h);
    }
}

proof fn lemma_down_at(rs: Seq<IdRange>, i: int, n: int)
    requires
        0 <= i < rs.len(),
        rs[i].holds_ns(n),
        forall|j: int| 0 <= j < i ==> !(#[trigger] rs[j].holds_ns(n)),
    ensures
        spec_map_down(rs, n) == rs[i].host_start + (n - rs[i].ns_start),
    decreases i,
{
    if i > 0 {
        assert(!rs[0].holds_ns(n));
        let tail = rs.drop_first();
        assert forall|j: int| 0 <= j < i - 1 implies !(#[trigger] tail[j].holds_ns(n)) by {
            assert(tail[j] == rs[j + 1]);
        }
        lemma_down_at(tail, i - 1, n);
    }
}

proof fn lemma_down_none(rs: Seq<IdRange>, n: int)
    requires
        forall|j: int| 0 <= j < rs.len() ==> !(#[trigger] rs[j].holds_ns(n)),
    ensures
        spec_map_down(rs, n) == OVERFLOW_ID as int,
    decreases rs.len(),
{
    if rs.len() > 0 {
        assert(!rs[0].holds_ns(n));
        let tail = rs.drop_first();
        assert forall|j: int| 0 <= j < tail.len() implies !(#[trigger] tail[j].holds_ns(n)) by {
            assert(tail[j] == rs[j + 1]);
        }
        lemma_down_none(tail, n);
    }
}

/// The range written on the line that starts at `i`, with the index where the
/// next line starts: three numbers, each after optional blanks, then optional
/// blanks and a line feed or the end of the text.
pub open spec fn line_at(s: Seq<u8>, i: int) -> Option<(IdRange, int)> {
    match field_at(s, i) {
        None => None,
        Some((a, ia)) => match field_at(s, ia) {
            None => None,
            Some((b, ib)) => match field_at(s, ib) {
                None => None,
                Some((c, ic)) => {
                    let d = skip_blanks(s, ic);
                    let r = IdRange { ns_start: a, host_start: b, length: c };
                    if d == s.len() {
                        Some((r, d))
                    } else if s[d] == 10u8 {
                        Some((r, d + 1))
                    } else {
                        None
                    }
                },
            },
        },
    }
}

/// The ranges written in `s` from index `i` on, one per line, or `None` when
/// a line does not have the shape of `line_at`.
pub open spec fn ranges_from(s: Seq<u8>, i: int) -> Option<Seq<IdRange>>
    decreases s.len() - i,
{
    if i >= s.len() {
        Some(Seq::empty())
    } else {
        match line_at(s, i) {
            None => None,
            Some((r, next)) => if next <= i || next > s.len() {
                None
            } else {
                match ranges_from(s, next) {
                    None => None,
                    Some(rest) => Some(seq![r] + rest),
                }
            },
        }
    }
}

pub open spec fn prepend(acc: Seq<IdRange>, o: Option<Seq<IdRange>>) -> Option<Seq<IdRange>> {
    match o {
        None => None,
        Some(rest) => Some(acc + rest),
    }
}

fn line_at_exec(s: &Vec<u8>, i: usize) -> (r: Option<(IdRange, usize)>)
    requires
        i <= s@.len(),
    ensures
        match r {
            Some((rg, e)) => line_at(s@, i as int) == Some((rg, e as int)),
            None => line_at(s@, i as int) is None,
        },
        r matches Some((rg, e)) ==> i < e <= s@.len(),
{
    let (a, ia) = match field_at_exec(s, i) {
        Some(x) => x,
        None => return None,
    };
    let (b, ib) = match field_at_exec(s, ia) {
        Some(x) => x,
        None => return None,
    };
    let (c, ic) = match field_at_exec(s, ib) {
        Some(x) => x,
        None => return None,
    };
    let d = skip_blanks_exec(s, ic);
    let rg = IdRange { ns_start: a, host_start: b, length: c };
    if d == s.len() {
        Some((rg, d))
    } else if s[d] == 10 {
        Some((rg, d + 1))
    } else {
        None
    }
}

/// `rs` with `x` placed before the first range that starts later in the
/// namespace.
pub open spec fn insert_sorted(rs: Seq<IdRange>, x: IdRange) -> Seq<IdRange>
    decreases rs.len(),
{
    if rs.len() == 0 {
        seq![x]
    } else if x.ns_start < rs[0].ns_start {
        seq![x] + rs
    } else {
        seq![rs[0]] + insert_sorted(rs.drop_first(), x)
    }
}

/// `rs` sorted by namespace start; ranges with equal starts keep their order.
pub open spec fn sort_ranges(rs: Seq<IdRange>) -> Seq<IdRange>
    decreases rs.len(),
{
    if rs.len() == 0 {
        rs
    } else {
        insert_sorted(sort_ranges(rs.drop_last()), rs.last())
    }
}

proof fn lemma_insert_sorted_multiset(rs: Seq<IdRange>, x: IdRange)
    ensures
        insert_sorted(rs, x).to_multiset() =~= rs.to_multiset().insert(x),
    decreases rs.len(),
{
    broadcast use vstd::seq_lib::to_multiset_insert, vstd::seq_lib::lemma_multiset_commutative,
        vstd::multiset::group_multiset_axioms;

    let r = insert_sorted(rs, x);
    if rs.len() == 0 {
        assert(r =~= rs.insert(0, x));
    } else if x.ns_start < rs[0].ns_start {
        assert(r =~= rs.insert(0, x));
    } else {
        let t = rs.drop_first();
        let head = seq![rs[0]];
        lemma_insert_sorted_multiset(t, x);
        assert(r =~= head + insert_sorted(t, x));
        assert(rs =~= head + t);
        assert((head + insert_sorted(t, x)).to_multiset() =~= head.to_multiset().add(
            insert_sorted(t, x).to_multiset(),
        ));
        assert((head + t).to_multiset() =~= head.to_multiset().add(t.to_multiset()));
    }
}

/// Sorting keeps every range, as often as it occurs: the result holds the
/// same ranges as the input.
pub proof fn lemma_sort_ranges_multiset(rs: Seq<IdRange>)
    ensures
        sort_ranges(rs).to_multiset() =~= rs.to_multiset(),
    decreases rs.len(),
{
    if rs.len() > 0 {
        let p = rs.drop_last();
        lemma_sort_ranges_multiset(p);
        lemma_insert_sorted_multiset(sort_ranges(p), rs.last());
        p.to_multiset_ensures();
        assert(p.push(rs.last()) =~= rs);
    }
}

proof fn lemma_insert_at(rs: Seq<IdRange>, x: IdRange, k: int)
    requires
        0 <= k <= rs.len(),
        forall|j: int| 0 <= j < k ==> !(x.ns_start < (#[trigger] rs[j]).ns_start),
        k == rs.len() || x.ns_start < rs[k].ns_start,
    ensures
        insert_sorted(rs, x) == rs.subrange(0, k) + seq![x] + rs.subrange(k, rs.len() as int),
    decreases k,
{
    if k == 0 {
        if rs.len() == 0 {
            assert(seq![x] =~= rs.subrange(0, 0) + seq![x] + rs.subrange(0, 0));
        } else {
            assert(seq![x] + rs =~= rs.subrange(0, 0) + seq![x] + rs.subrange(0, rs.len() as int));
        }
    } else {
        let t = rs.drop_first();
        assert(!(x.ns_start < rs[0].ns_start));
        assert forall|j: int| 0 <= j < k - 1 implies !(x.ns_start < (#[trigger] t[j]).ns_start) by {
            assert(t[j] == rs[j + 1]);
        }
        if k < rs.len() {
            assert(t[k - 1] == rs[k]);
        }
        lemma_insert_at(t, x, k - 1);
        assert(seq![rs[0]] + (t.subrange(0, k - 1) + seq![x] + t.subrange(k - 1, t.len() as int))
            =~= rs.subrange(0, k) + seq![x] + rs.subrange(k, rs.len() as int));
    }
}

/// Places `x` in the sorted `out`.
fn insert_by_ns(out: &mut Vec<IdRange>, x: IdRange)
    ensures
        final(out)@ == insert_sorted(old(out)@, x),
{
    let n = out.len();
    let mut k: usize = 0;
    while k < n && !(x.ns_start < out[k].ns_start)
        invariant
            n == out@.len(),
            k <= n,
            forall|j: int| 0 <= j < k ==> !(x.ns_start < (#[trigger] out@[j]).ns_start),
        decreases n - k,
    {
        k = k + 1;
    }
    proof {
        lemma_insert_at(out@, x, k as int);
    }
    let ghost before = out@;
    out.insert(k, x);
    assert(out@ =~= before.subrange(0, k as int) + seq![x] + before.subrange(k as int, n as int));
}

/// `ranges` sorted by namespace start, keeping the order of equal starts.
fn sort_by_ns(ranges: Vec<IdRange>) -> (r: Vec<IdRange>)
    ensures
        r@ == sort_ranges(ranges@),
{
    let mut out: Vec<IdRange> = Vec::new();
    let n = ranges.len();
    let mut i: usize = 0;
    assert(ranges@.subrange(0, 0) =~= Seq::<IdRange>::empty());
    while i < n
        invariant
            n == ranges@.len(),
            i <= n,
            out@ == sort_ranges(ranges@.subrange(0, i as int)),
        decreases n - i,
    {
        let ghost next = ranges@.subrange(0, i as int + 1);
        assert(next.drop_last() =~= ranges@.subrange(0, i as int));
        insert_by_ns(&mut out, ranges[i]);
        i = i + 1;
    }
    assert(ranges@.subrange(0, n as int) =~= ranges@);
    out
}

/// A user-namespace id map: the correspondence between ids inside a namespace
/// and ids on the host.
pub struct IdMap {
    ranges: Vec<IdRange>,
}

impl View for IdMap {
    type V = Seq<IdRange>;

    closed spec fn view(&self) -> Seq<IdRange> {
        self.ranges@
    }
}

impl IdMap {
    pub open spec fn wf(&self) -> bool {
        ranges_wf(self@)
    }

    /// The map with no ranges.
    pub fn empty() -> (r: IdMap)
        ensures
            r@.len() == 0,
            r.wf(),
    {
        IdMap { ranges: Vec::new() }
    }

    /// The ranges of the map, in order.
    pub fn ranges(&self) -> (r: &Vec<IdRange>)
        ensures
            r@ == self@,
    {
        &self.ranges
    }

    /// Whether some range holds host id `host_id`; when none does,
    /// `map_id_up` gives the overflow id.
    pub fn maps_host_id(&self, host_id: u32) -> (r: bool)
        ensures
            r == exists|i: int| 0 <= i < self@.len() && #[trigger] self@[i].holds_host(host_id as int),
    {
        let n = self.ranges.len();
        let mut i: usize = 0;
        while i < n
            invariant
                n == self@.len(),
                i <= n,
                forall|j: int| 0 <= j < i ==> !(#[trigger] self@[j].holds_host(host_id as int)),
            decreases n - i,
        {
            let rg = self.ranges[i];
            if rg.host_start <= host_id && host_id - rg.host_start < rg.length {
                assert(self@[i as int].holds_host(host_id as int));
                return true;
            }
            i = i + 1;
        }
        false
    }

    /// Whether some range holds namespace id `ns_id`; when none does,
    /// `map_id_down` gives the overflow id.
    pub fn maps_ns_id(&self, ns_id: u32) -> (r: bool)
        ensures
            r == exists|i: int| 0 <= i < self@.len() && #[trigger] self@[i].holds_ns(ns_id as int),
    {
        let n = self.ranges.len();
        let mut i: usize = 0;
        while i < n
            invariant
                n == self@.len(),
                i <= n,
                forall|j: int| 0 <= j < i ==> !(#[trigger] self@[j].holds_ns(ns_id as int)),
            decreases n - i,
        {
            let rg = self.ranges[i];
            if rg.ns_start <= ns_id && ns_id - rg.ns_start < rg.length {
                assert(self@[i as int].holds_ns(ns_id as int));
                return true;
            }
            i = i + 1;
        }
        false
    }

    /// The namespace id that host id `host_id` stands for, or the overflow id
    /// when no range holds it.
    pub fn map_id_up(&self, host_id: u32) -> (r: u32)
        requires
            self.wf(),
        ensures
            r == spec_map_up(self@, host_id as int),
    {
        let n = self.ranges.len();
        let mut i: usize = 0;
        while i < n
            invariant
                n == self@.len(),
                i <= n,
                ranges_wf(self@),
                forall|j: int| 0 <= j < i ==> !(#[trigger] self@[j].holds_host(host_id as int)),
            decreases n - i,
        {
            let rg = self.ranges[i];
            if rg.host_start <= host_id && host_id - rg.host_start < rg.length {
                proof {
                    assert(self@[i as int].fits());
                    lemma_up_at(self@, i as int, host_id as int);
                }
                return rg.ns_start + (host_id - rg.host_start);
            }
            i = i + 1;
        }
        proof {
            lemma_up_none(self@, host_id as int);
        }
        OVERFLOW_ID
    }

    /// The host id that namespace id `ns_id` stands for, or the overflow id
    /// when no range holds it.
    pub fn map_id_down(&self, ns_id: u32) -> (r: u32)
        requires
            self.wf(),
        ensures
            r == spec_map_down(self@, ns_id as int),
    {
        let n = self.ranges.len();
        let mut i: usize = 0;
        while i < n
            invariant
                n == self@.len(),
                i <= n,
                ranges_wf(self@),
                forall|j: int| 0 <= j < i ==> !(#[trigger] self@[j].holds_ns(ns_id as int)),
            decreases n - i,
        {
            let rg = self.ranges[i];
            if rg.ns_start <= ns_id && ns_id - rg.ns_start < rg.length {
                proof {
                    assert(self@[i as int].fits());
                    lemma_down_at(self@, i as int, ns_id as int);
                }
                return rg.host_start + (ns_id - rg.ns_start);
            }
            i = i + 1;
        }
        proof {
            lemma_down_none(self@, ns_id as int);
        }
        OVERFLOW_ID
    }
    /// The map written in the text of a `/proc/<pid>/uid_map` or `gid_map`
    /// file: one range per line, as `ns_start host_start length`. An error
    /// when a line has another shape, or when the ranges overlap, are out of
    /// order or leave the id space.
    pub fn parse(text: &Vec<u8>) -> (r: Result<IdMap, Error>)
        ensures
            r is Ok <==> (ranges_from(text@, 0) matches Some(rs) && ranges_wf(sort_ranges(rs))),
            r matches Ok(m) ==> ranges_from(text@, 0) matches Some(rs) && m@ == sort_ranges(rs)
                && m.wf(),
            r matches Err(e) ==> e.kind == ErrorKind::IdMapParse,
    {
        let n = text.len();
        let mut pos: usize = 0;
        let mut acc: Vec<IdRange> = Vec::new();
        assert(prepend(acc@, ranges_from(text@, 0)) == ranges_from(text@, 0)) by {
            match ranges_from(text@, 0) {
                Some(y) => assert(acc@ + y =~= y),
                None => {},
            }
        }
        while pos < n
            invariant
                n == text@.len(),
                pos <= n,
                ranges_from(text@, 0) == prepend(acc@, ranges_from(text@, pos as int)),
            decreases n - pos,
        {
            match line_at_exec(text, pos) {
                None => {
                    let desc = String::from_str("malformed id map line");
                    return Err(Error::new(ErrorKind::IdMapParse, desc));
                },
                Some((rg, next)) => {
                    proof {
                        match ranges_from(text@, next as int) {
                            Some(y) => assert(acc@ + (seq![rg] + y) =~= acc@.push(rg) + y),
                            None => {},
                        }
                    }
                    acc.push(rg);
                    pos = next;
                },
            }
        }
        assert(acc@ + Seq::<IdRange>::empty() =~= acc@);
        IdMap::from_ranges(acc)
    }

    /// The map made of `ranges` sorted by their namespace start, when they fit
    /// the id space and do not overlap on either side; otherwise an error.
    pub fn from_ranges(ranges: Vec<IdRange>) -> (r: Result<IdMap, Error>)
        ensures
            r is Ok <==> ranges_wf(sort_ranges(ranges@)),
            r matches Ok(m) ==> m@ == sort_ranges(ranges@) && m.wf(),
            r matches Err(e) ==> e.kind == ErrorKind::IdMapParse,
    {
        IdMap::from_sorted(sort_by_ns(ranges))
    }

    /// The map made of `ranges` as they stand, when they are well-formed.
    fn from_sorted(ranges: Vec<IdRange>) -> (r: Result<IdMap, Error>)
        ensures
            r is Ok <==> ranges_wf(ranges@),
            r matches Ok(m) ==> m@ == ranges@ && m.wf(),
            r matches Err(e) ==> e.kind == ErrorKind::IdMapParse,
    {
        let n = ranges.len();
        let mut i: usize = 0;
        while i < n
            invariant
                n == ranges@.len(),
                i <= n,
                forall|k: int| 0 <= k < i ==> #[trigger] ranges@[k].fits(),
                forall|a: int, b: int|
                    0 <= a < b < n && a < i ==> {
                        &&& #[trigger] ranges@[a].ns_end() <= #[trigger] ranges@[b].ns_start
                        &&& (ranges@[a].host_end() <= ranges@[b].host_start || ranges@[b].host_end()
                            <= ranges@[a].host_start)
                    },
            decreases n - i,
        {
            let a = ranges[i];
            if a.ns_start as u64 + a.length as u64 > 0x1_0000_0000u64 || a.host_start as u64
                + a.length as u64 > 0x1_0000_0000u64 {
                proof {
                    assert(!ranges@[i as int].fits());
                }
                let desc = String::from_str("id map range exceeds the id space");
                return Err(Error::new(ErrorKind::IdMapParse, desc));
            }
            let mut j: usize = i + 1;
            while j < n
                invariant
                    n == ranges@.len(),
                    i < n,
                    i < j <= n,
                    a == ranges@[i as int],
                    forall|b: int|
                        i < b < j ==> {
                            &&& a.ns_end() <= #[trigger] ranges@[b].ns_start
                            &&& (a.host_end() <= ranges@[b].host_start || ranges@[b].host_end()
                                <= a.host_start)
                        },
                decreases n - j,
            {
                let b = ranges[j];
                let ns_ok = a.ns_start as u64 + a.length as u64 <= b.ns_start as u64;
                let host_ok = a.host_start as u64 + a.length as u64 <= b.host_start as u64
                    || b.host_start as u64 + b.length as u64 <= a.host_start as u64;
                if !(ns_ok && host_ok) {
                    proof {
                        if ranges_wf(ranges@) {
                            assert(ranges@[i as int].ns_end() <= ranges@[j as int].ns_start);
                            assert(false);
                        }
                    }
                    let desc = String::from_str("id map ranges overlap");
                    return Err(Error::new(ErrorKind::IdMapParse, desc));
                }
                j = j + 1;
            }
            i = i + 1;
        }
        assert(ranges_wf(ranges@)) by {
            assert forall|a: int, b: int| 0 <= a < b < ranges@.len() implies {
                &&& #[trigger] ranges@[a].ns_end() <= #[trigger] ranges@[b].ns_start
                &&& (ranges@[a].host_end() <= ranges@[b].host_start || ranges@[b].host_end()
                    <= ranges@[a].host_start)
            } by {
                assert(a < i);
            }
        }
        Ok(IdMap { ranges })
    }
}

/// Mapping a host id up into the namespace and back down gives the id again,
/// for every id that some range of a well-formed map holds.
pub proof fn lemma_map_round_trip(m: IdMap, h: u32)
    requires
        m.wf(),
        exists|i: int| 0 <= i < m@.len() && #[trigger] m@[i].holds_host(h as int),
    ensures
        spec_map_down(m@, spec_map_up(m@, h as int)) == h as int,
{
    let rs = m@;
    let i = choose|i: int| 0 <= i < rs.len() && #[trigger] rs[i].holds_host(h as int);
    assert forall|j: int| 0 <= j < i implies !(#[trigger] rs[j].holds_host(h as int)) by {
        assert(rs[j].ns_end() <= rs[i].ns_start);
    }
    lemma_up_at(rs, i, h as int);
    let n = rs[i].ns_start + (h - rs[i].host_start);
    assert forall|j: int| 0 <= j < i implies !(#[trigger] rs[j].holds_ns(n)) by {
        assert(rs[j].ns_end() <= rs[i].ns_start);
    }
    lemma_down_at(rs, i, n);
}

/// A map with no ranges sends every id, in either direction, to the overflow id.
pub proof fn lemma_empty_map_overflows(m: IdMap, id: u32)
    requires
        m@.len() == 0,
    ensures
        spec_map_up(m@, id as int) == OVERFLOW_ID as int,
        spec_map_down(m@, id as int) == OVERFLOW_ID as int,
{
}

} // verus!
