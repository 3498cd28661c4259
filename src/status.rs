use vstd::prelude::*;

use crate::text::{is_blank, number_at, number_at_exec, skip_blanks, skip_blanks_exec};
use crate::types::{Error, ErrorKind};

verus! {

/// The first index from `i` on where `s` holds `b`, or the length of `s`.
pub open spec fn scan_to(s: Seq<u8>, i: int, b: u8) -> int
    decreases s.len() - i,
{
    if 0 <= i < s.len() && s[i] != b {
        scan_to(s, i + 1, b)
    } else {
        i
    }
}

/// One `Key:<blanks>Value` line of a status file.
pub struct StatusEntry {
    pub key: Vec<u8>,
    pub value: Vec<u8>,
}

pub open spec fn entry_view(e: StatusEntry) -> (Seq<u8>, Seq<u8>) {
    (e.key@, e.value@)
}

/// The entry on the line that starts at `i`, with the index where the next
/// line starts: the key is what comes before the first `:`, the value what
/// follows it after any blanks, up to the line feed or the end of the text.
pub open spec fn status_line_at(s: Seq<u8>, i: int) -> Option<((Seq<u8>, Seq<u8>), int)> {
    let end = scan_to(s, i, 10u8);
    let colon = scan_to(s, i, 58u8);
    if colon >= end {
        None
    } else {
        let v = skip_blanks(s, colon + 1);
        let next = if end == s.len() {
            end
        } else {
            end + 1
        };
        if v > end {
            None
        } else {
            Some(((s.subrange(i, colon), s.subrange(v, end)), next))
        }
    }
}

/// The entries of the status text `s` from index `i` on, one per line, or
/// `None` when a line holds no `:`.
pub open spec fn status_from(s: Seq<u8>, i: int) -> Option<Seq<(Seq<u8>, Seq<u8>)>>
    decreases s.len() - i,
{
    if i >= s.len() {
        Some(Seq::empty())
    } else {
        match status_line_at(s, i) {
            None => None,
            Some((e, next)) => if next <= i || next > s.len() {
                None
            } else {
                match status_from(s, next) {
                    None => None,
                    Some(rest) => Some(seq![e] + rest),
                }
            },
        }
    }
}

/// The value of the first entry whose key is `key`.
pub open spec fn status_value(es: Seq<(Seq<u8>, Seq<u8>)>, key: Seq<u8>) -> Option<Seq<u8>>
    decreases es.len(),
{
    if es.len() == 0 {
        None
    } else if es[0].0 == key {
        Some(es[0].1)
    } else {
        status_value(es.drop_first(), key)
    }
}

/// The numbers written in `v` from index `i` on, separated by blanks, or
/// `None` when something else stands there.
pub open spec fn numbers_from(v: Seq<u8>, i: int) -> Option<Seq<u32>>
    decreases v.len() - i,
{
    let j = skip_blanks(v, i);
    if j >= v.len() {
        Some(Seq::empty())
    } else {
        match number_at(v, j) {
            None => None,
            Some((n, e)) => if e <= i || e > v.len() {
                None
            } else {
                match numbers_from(v, e) {
                    None => None,
                    Some(rest) => Some(seq![n] + rest),
                }
            },
        }
    }
}

proof fn lemma_skip_blanks_stops(s: Seq<u8>, k: int, e: int)
    requires
        0 <= k <= e <= s.len(),
        e == s.len() || !is_blank(s[e]),
    ensures
        k <= skip_blanks(s, k) <= e,
    decreases e - k,
{
    if k < e && is_blank(s[k]) {
        lemma_skip_blanks_stops(s, k + 1, e);
    }
}

proof fn lemma_status_value_at(es: Seq<(Seq<u8>, Seq<u8>)>, key: Seq<u8>, i: int)
    requires
        0 <= i < es.len(),
        es[i].0 == key,
        forall|j: int| 0 <= j < i ==> (#[trigger] es[j]).0 != key,
    ensures
        status_value(es, key) == Some(es[i].1),
    decreases i,
{
    if i > 0 {
        let t = es.drop_first();
        assert(es[0].0 != key);
        assert forall|j: int| 0 <= j < i - 1 implies (#[trigger] t[j]).0 != key by {
            assert(t[j] == es[j + 1]);
        }
        lemma_status_value_at(t, key, i - 1);
    }
}

proof fn lemma_status_value_none(es: Seq<(Seq<u8>, Seq<u8>)>, key: Seq<u8>)
    requires
        forall|j: int| 0 <= j < es.len() ==> (#[trigger] es[j]).0 != key,
    ensures
        status_value(es, key) is None,
    decreases es.len(),
{
    if es.len() > 0 {
        let t = es.drop_first();
        assert(es[0].0 != key);
        assert forall|j: int| 0 <= j < t.len() implies (#[trigger] t[j]).0 != key by {
            assert(t[j] == es[j + 1]);
        }
        lemma_status_value_none(t, key);
    }
}

fn scan_to_exec(s: &Vec<u8>, i: usize, b: u8) -> (r: usize)
    requires
        i <= s@.len(),
    ensures
        r == scan_to(s@, i as int, b),
        i <= r <= s@.len(),
        r < s@.len() ==> s@[r as int] == b,
{
    let mut j = i;
    while j < s.len() && s[j] != b
        invariant
            i <= j <= s@.len(),
            scan_to(s@, i as int, b) == scan_to(s@, j as int, b),
        decreases s@.len() - j,
    {
        j = j + 1;
    }
    j
}

fn status_line_at_exec(s: &Vec<u8>, i: usize) -> (r: Option<(StatusEntry, usize)>)
    requires
        i < s@.len(),
    ensures
        match r {
            Some((e, next)) => status_line_at(s@, i as int) == Some((entry_view(e), next as int)),
            None => status_line_at(s@, i as int) is None,
        },
        r matches Some((e, next)) ==> i < next <= s@.len(),
{
    let end = scan_to_exec(s, i, 10u8);
    let colon = scan_to_exec(s, i, 58u8);
    if colon >= end {
        return None;
    }
    let v = skip_blanks_exec(s, colon + 1);
    proof {
        lemma_skip_blanks_stops(s@, colon as int + 1, end as int);
    }
    let next = if end == s.len() {
        end
    } else {
        end + 1
    };
    let key = crate::text::copy_range(s, i, colon);
    let value = crate::text::copy_range(s, v, end);
    Some((StatusEntry { key, value }, next))
}

/// The numbers written in `v`, separated by blanks.
fn numbers_exec(v: &Vec<u8>) -> (r: Option<Vec<u32>>)
    ensures
        match r {
            Some(ns) => numbers_from(v@, 0) == Some(ns@),
            None => numbers_from(v@, 0) is None,
        },
{
    let n = v.len();
    let mut pos: usize = 0;
    let mut acc: Vec<u32> = Vec::new();
    assert(acc@ + Seq::<u32>::empty() =~= Seq::<u32>::empty());
    assert(numbers_from(v@, 0) == prepend_numbers(acc@, numbers_from(v@, 0))) by {
        match numbers_from(v@, 0) {
            Some(y) => assert(acc@ + y =~= y),
            None => {},
        }
    }
    loop
        invariant
            n == v@.len(),
            pos <= n,
            numbers_from(v@, 0) == prepend_numbers(acc@, numbers_from(v@, pos as int)),
        decreases n - pos,
    {
        let j = skip_blanks_exec(v, pos);
        if j >= n {
            assert(acc@ + Seq::<u32>::empty() =~= acc@);
            return Some(acc);
        }
        match number_at_exec(v, j) {
            None => {
                return None;
            },
            Some((num, e)) => {
                proof {
                    match numbers_from(v@, e as int) {
                        Some(y) => assert(acc@ + (seq![num] + y) =~= acc@.push(num) + y),
                        None => {},
                    }
                }
                acc.push(num);
                pos = e;
            },
        }
    }
}

pub open spec fn prepend_numbers(acc: Seq<u32>, o: Option<Seq<u32>>) -> Option<Seq<u32>> {
    match o {
        None => None,
        Some(rest) => Some(acc + rest),
    }
}

pub open spec fn prepend_entries(acc: Seq<(Seq<u8>, Seq<u8>)>, o: Option<
    Seq<(Seq<u8>, Seq<u8>)>,
>) -> Option<Seq<(Seq<u8>, Seq<u8>)>> {
    match o {
        None => None,
        Some(rest) => Some(acc + rest),
    }
}

/// A snapshot of `/proc/<pid>/status`: its entries, in order, every key kept.
pub struct ProcStatus {
    entries: Vec<StatusEntry>,
}

impl View for ProcStatus {
    type V = Seq<(Seq<u8>, Seq<u8>)>;

    closed spec fn view(&self) -> Seq<(Seq<u8>, Seq<u8>)> {
        self.entries@.map_values(|e: StatusEntry| entry_view(e))
    }
}

impl ProcStatus {
    /// The snapshot of the status text `text`: one `Key:<blanks>Value` entry
    /// per line. An error when a line holds no `:`.
    pub fn parse(text: &Vec<u8>) -> (r: Result<ProcStatus, Error>)
        ensures
            r is Ok <==> status_from(text@, 0) is Some,
            r matches Ok(st) ==> status_from(text@, 0) == Some(st@),
            r matches Err(e) ==> e.kind == ErrorKind::StatusParse,
    {
        let n = text.len();
        let mut pos: usize = 0;
        let mut acc: Vec<StatusEntry> = Vec::new();
        let ghost mut seen: Seq<(Seq<u8>, Seq<u8>)> = Seq::empty();
        assert(prepend_entries(seen, status_from(text@, 0)) == status_from(text@, 0)) by {
            match status_from(text@, 0) {
                Some(y) => assert(seen + y =~= y),
                None => {},
            }
        }
        while pos < n
            invariant
                n == text@.len(),
                pos <= n,
                seen == acc@.map_values(|e: StatusEntry| entry_view(e)),
                status_from(text@, 0) == prepend_entries(seen, status_from(text@, pos as int)),
            decreases n - pos,
        {
            match status_line_at_exec(text, pos) {
                None => {
                    let desc = String::from_str("malformed status line");
                    return Err(Error::new(ErrorKind::StatusParse, desc));
                },
                Some((entry, next)) => {
                    let ghost ev = entry_view(entry);
                    proof {
                        match status_from(text@, next as int) {
                            Some(y) => assert(seen + (seq![ev] + y) =~= seen.push(ev) + y),
                            None => {},
                        }
                    }
                    acc.push(entry);
                    proof {
                        seen = seen.push(ev);
                        assert(seen =~= acc@.map_values(|e: StatusEntry| entry_view(e)));
                    }
                    pos = next;
                },
            }
        }
        assert(seen + Seq::<(Seq<u8>, Seq<u8>)>::empty() =~= seen);
        let st = ProcStatus { entries: acc };
        assert(st@ == seen);
        Ok(st)
    }

    /// The value of the first entry whose key is `key`.
    pub fn value(&self, key: &Vec<u8>) -> (r: Option<&Vec<u8>>)
        ensures
            match r {
                Some(v) => status_value(self@, key@) == Some(v@),
                None => status_value(self@, key@) is None,
            },
    {
        let n = self.entries.len();
        let mut i: usize = 0;
        while i < n
            invariant
                n == self@.len(),
                n == self.entries@.len(),
                i <= n,
                forall|j: int| 0 <= j < i ==> (#[trigger] self@[j]).0 != key@,
            decreases n - i,
        {
            let e = &self.entries[i];
            assert(self@[i as int] == entry_view(self.entries@[i as int]));
            if bytes_equal(&e.key, key) {
                proof {
                    lemma_status_value_at(self@, key@, i as int);
                }
                return Some(&e.value);
            }
            i = i + 1;
        }
        proof {
            lemma_status_value_none(self@, key@);
        }
        None
    }

    /// The numbers in the value of the first entry whose key is `key`, such
    /// as the ids under `Uid`, `Gid` or `Groups`. An error when there is no
    /// such entry or its value holds something else.
    pub fn ids(&self, key: &Vec<u8>) -> (r: Result<Vec<u32>, Error>)
        ensures
            r is Ok <==> (status_value(self@, key@) matches Some(v) && numbers_from(v, 0) is Some),
            r matches Ok(ns) ==> status_value(self@, key@) matches Some(v) && numbers_from(v, 0)
                == Some(ns@),
            r matches Err(e) ==> e.kind == ErrorKind::StatusParse,
    {
        match self.value(key) {
            None => {
                let desc = String::from_str("status entry is missing");
                Err(Error::new(ErrorKind::StatusParse, desc))
            },
            Some(v) => match numbers_exec(v) {
                Some(ns) => Ok(ns),
                None => {
                    let desc = String::from_str("status entry does not hold numbers");
                    Err(Error::new(ErrorKind::StatusParse, desc))
                },
            },
        }
    }
}

fn bytes_equal(a: &Vec<u8>, b: &Vec<u8>) -> (r: bool)
    ensures
        r == (a@ == b@),
{
    if a.len() != b.len() {
        return false;
    }
    let mut i: usize = 0;
    while i < a.len()
        invariant
            a@.len() == b@.len(),
            i <= a@.len(),
            forall|j: int| 0 <= j < i ==> a@[j] == b@[j],
        decreases a@.len() - i,
    {
        if a[i] != b[i] {
            return false;
        }
        i = i + 1;
    }
    assert(a@ =~= b@);
    true
}

} // verus!
