//! Undoing the escaping of binary headers and data subpackets.

use vstd::prelude::*;

use crate::frame::{ZCRCE, ZCRCG, ZCRCQ, ZCRCW, ZDLE, ZRUB0, ZRUB1};

verus! {

broadcast use vstd::seq_lib::group_seq_properties;

/// The byte that `ZDLE` and `e` stand for.
pub open spec fn unquoted(e: u8) -> u8 {
    if e == ZRUB0 {
        0x7f
    } else if e == ZRUB1 {
        0xff
    } else {
        e ^ 0x40
    }
}

/// A flow control character, which the line may put anywhere.
pub open spec fn is_flow(b: u8) -> bool {
    b == 0x11 || b == 0x13 || b == 0x91 || b == 0x93
}

/// A byte that, after `ZDLE`, ends a subpacket.
pub open spec fn is_end(b: u8) -> bool {
    b == ZCRCE || b == ZCRCG || b == ZCRCQ || b == ZCRCW
}

/// The first `need` bytes that the escaped bytes `s` stand for, and how many
/// bytes of `s` they take; `None` if `s` ends before.
pub open spec fn values_of(s: Seq<u8>, need: nat) -> Option<(Seq<u8>, nat)>
    decreases s.len(),
{
    if need == 0 {
        Some((Seq::empty(), 0))
    } else if s.len() == 0 {
        None
    } else if s[0] == ZDLE {
        if s.len() == 1 {
            None
        } else {
            match values_of(s.skip(2), (need - 1) as nat) {
                Some((v, n)) => Some((seq![unquoted(s[1])] + v, n + 2)),
                None => None,
            }
        }
    } else if is_flow(s[0]) {
        match values_of(s.skip(1), need) {
            Some((v, n)) => Some((v, n + 1)),
            None => None,
        }
    } else {
        match values_of(s.skip(1), (need - 1) as nat) {
            Some((v, n)) => Some((seq![s[0]] + v, n + 1)),
            None => None,
        }
    }
}

/// The data of the subpacket that `s` begins with, its terminator, and how
/// many bytes of `s` these take; `None` if `s` ends before the terminator.
pub open spec fn body_of(s: Seq<u8>) -> Option<(Seq<u8>, u8, nat)>
    decreases s.len(),
{
    if s.len() == 0 {
        None
    } else if s[0] == ZDLE {
        if s.len() == 1 {
            None
        } else if is_end(s[1]) {
            Some((Seq::empty(), s[1], 2))
        } else {
            match body_of(s.skip(2)) {
                Some((d, e, n)) => Some((seq![unquoted(s[1])] + d, e, n + 2)),
                None => None,
            }
        }
    } else if is_flow(s[0]) {
        match body_of(s.skip(1)) {
            Some((d, e, n)) => Some((d, e, n + 1)),
            None => None,
        }
    } else {
        match body_of(s.skip(1)) {
            Some((d, e, n)) => Some((seq![s[0]] + d, e, n + 1)),
            None => None,
        }
    }
}

/// A subpacket as it was received: data, terminator, check bytes and how many
/// bytes of the line it took.
#[verifier::ext_equal]
pub struct RawView {
    pub data: Seq<u8>,
    pub end: u8,
    pub crc: Seq<u8>,
    pub used: nat,
}

/// The subpacket with `crc_len` check bytes that `s` begins with; `None` if
/// `s` ends before it.
pub open spec fn raw_of(s: Seq<u8>, crc_len: nat) -> Option<RawView> {
    match body_of(s) {
        None => None,
        Some((data, end, n)) => match values_of(s.skip(n as int), crc_len) {
            None => None,
            Some((crc, m)) => Some(RawView { data, end, crc, used: n + m }),
        },
    }
}

/// A subpacket as it was received.
pub struct Raw {
    pub data: Vec<u8>,
    pub end: u8,
    pub crc: Vec<u8>,
    pub used: usize,
}

impl View for Raw {
    type V = RawView;

    open spec fn view(&self) -> RawView {
        RawView { data: self.data@, end: self.end, crc: self.crc@, used: self.used as nat }
    }
}

/// The byte that `ZDLE` and `e` stand for.
pub fn unquote(e: u8) -> (b: u8)
    ensures
        b == unquoted(e),
{
    if e == ZRUB0 {
        0x7f
    } else if e == ZRUB1 {
        0xff
    } else {
        e ^ 0x40
    }
}

/// Tells a flow control character.
pub fn flow(b: u8) -> (r: bool)
    ensures
        r == is_flow(b),
{
    b == 0x11 || b == 0x13 || b == 0x91 || b == 0x93
}

/// Escaped values lie within the bytes they are read from.
pub proof fn lemma_values_bound(s: Seq<u8>, need: nat)
    ensures
        values_of(s, need) matches Some((v, n)) ==> v.len() == need && need <= n <= s.len(),
    decreases s.len(),
{
    if need == 0 || s.len() == 0 {
    } else if s[0] == ZDLE {
        if s.len() > 1 {
            lemma_values_bound(s.skip(2), (need - 1) as nat);
        }
    } else if is_flow(s[0]) {
        lemma_values_bound(s.skip(1), need);
    } else {
        lemma_values_bound(s.skip(1), (need - 1) as nat);
    }
}

/// A subpacket's data lie within the bytes they are read from.
pub proof fn lemma_body_bound(s: Seq<u8>)
    ensures
        body_of(s) matches Some((d, e, n)) ==> d.len() + 2 <= n <= s.len() && is_end(e),
    decreases s.len(),
{
    if s.len() == 0 {
    } else if s[0] == ZDLE {
        if s.len() > 1 && !is_end(s[1]) {
            lemma_body_bound(s.skip(2));
        }
    } else {
        lemma_body_bound(s.skip(1));
    }
}

/// A received subpacket lies within the bytes it was read from.
pub proof fn lemma_raw_bound(s: Seq<u8>, crc_len: nat)
    ensures
        raw_of(s, crc_len) matches Some(r) ==> r.data.len() + 2 + crc_len <= r.used <= s.len()
            && r.crc.len() == crc_len && is_end(r.end),
{
    lemma_body_bound(s);
    if let Some((d, e, n)) = body_of(s) {
        lemma_values_bound(s.skip(n as int), crc_len);
    }
}

/// Decodes `need` bytes from the escaped bytes of `buf` that begin at `from`;
/// returns them and the place where they end.
pub fn take_values(buf: &[u8], from: usize, need: usize) -> (r: Option<(Vec<u8>, usize)>)
    requires
        from <= buf@.len(),
    ensures
        match (r, values_of(buf@.skip(from as int), need as nat)) {
            (Some((v, end)), Some((w, n))) => v@ == w && end == from + n && end <= buf@.len(),
            (None, None) => true,
            _ => false,
        },
{
    let mut vals: Vec<u8> = Vec::new();
    let mut i: usize = from;
    let ghost s = buf@.skip(from as int);
    proof {
        lemma_values_bound(s, need as nat);
    }
    while vals.len() < need && i < buf.len()
        invariant
            from <= i <= buf.len(),
            vals.len() <= need,
            s == buf@.skip(from as int),
            match values_of(buf@.skip(i as int), (need - vals@.len()) as nat) {
                Some((v, n)) => values_of(s, need as nat) == Some((vals@ + v, (i - from + n) as nat)),
                None => values_of(s, need as nat) is None,
            },
        decreases buf.len() - i,
    {
        let b = buf[i];
        let ghost cur = buf@.skip(i as int);
        let ghost before = vals@;
        if b == ZDLE {
            if i + 1 >= buf.len() {
                return None;
            }
            assert(cur.skip(2) =~= buf@.skip(i + 2));
            i = i + 1;
            vals.push(unquote(buf[i]));
            proof {
                if let Some((v, n)) = values_of(buf@.skip(i + 1), (need - vals@.len()) as nat) {
                    assert(before + (seq![vals@.last()] + v) =~= vals@ + v);
                }
            }
        } else if flow(b) {
            // line noise
            assert(cur.skip(1) =~= buf@.skip(i + 1));
        } else {
            assert(cur.skip(1) =~= buf@.skip(i + 1));
            vals.push(b);
            proof {
                if let Some((v, n)) = values_of(buf@.skip(i + 1), (need - vals@.len()) as nat) {
                    assert(before + (seq![b] + v) =~= vals@ + v);
                }
            }
        }
        i = i + 1;
    }
    if vals.len() < need {
        return None;
    }
    assert(vals@ + Seq::<u8>::empty() =~= vals@);
    Some((vals, i))
}

/// Decodes the data and the terminator of the subpacket that `buf` begins
/// with; returns also the place where they end.
fn take_body(buf: &[u8]) -> (r: Option<(Vec<u8>, u8, usize)>)
    ensures
        match (r, body_of(buf@)) {
            (Some((d, e, n)), Some((dd, ee, nn))) => d@ == dd && e == ee && n == nn && n
                <= buf@.len(),
            (None, None) => true,
            _ => false,
        },
{
    let mut data: Vec<u8> = Vec::new();
    let mut i: usize = 0;
    assert(buf@.skip(0) =~= buf@);
    proof {
        lemma_body_bound(buf@);
    }
    while i < buf.len()
        invariant
            i <= buf.len(),
            match body_of(buf@.skip(i as int)) {
                Some((d, e, n)) => body_of(buf@) == Some((data@ + d, e, (i + n) as nat)),
                None => body_of(buf@) is None,
            },
        decreases buf.len() - i,
    {
        let b = buf[i];
        let ghost cur = buf@.skip(i as int);
        let ghost before = data@;
        if b == ZDLE {
            if i + 1 >= buf.len() {
                return None;
            }
            let e = buf[i + 1];
            if e == ZCRCE || e == ZCRCG || e == ZCRCQ || e == ZCRCW {
                assert(data@ + Seq::<u8>::empty() =~= data@);
                return Some((data, e, i + 2));
            }
            i = i + 1;
            assert(cur.skip(2) =~= buf@.skip(i + 1));
            data.push(unquote(e));
            proof {
                if let Some((d, ee, n)) = body_of(buf@.skip(i + 1)) {
                    assert(before + (seq![data@.last()] + d) =~= data@ + d);
                }
            }
        } else if flow(b) {
            // line noise
            assert(cur.skip(1) =~= buf@.skip(i + 1));
        } else {
            assert(cur.skip(1) =~= buf@.skip(i + 1));
            data.push(b);
            proof {
                if let Some((d, ee, n)) = body_of(buf@.skip(i + 1)) {
                    assert(before + (seq![b] + d) =~= data@ + d);
                }
            }
        }
        i = i + 1;
    }
    None
}

/// Decodes the subpacket with `crc_len` check bytes that `buf` begins with.
pub fn take_raw(buf: &[u8], crc_len: usize) -> (r: Option<Raw>)
    ensures
        match (r, raw_of(buf@, crc_len as nat)) {
            (Some(raw), Some(v)) => raw@ == v,
            (None, None) => true,
            _ => false,
        },
{
    match take_body(buf) {
        None => None,
        Some((data, end, n)) => match take_values(buf, n, crc_len) {
            None => None,
            Some((crc, used)) => Some(Raw { data, end, crc, used }),
        },
    }
}

/// What has been read of escaped bytes does not change with what comes later.
pub proof fn values_stable(s: Seq<u8>, need: nat, more: Seq<u8>)
    requires
        values_of(s, need) is Some,
    ensures
        values_of(s + more, need) == values_of(s, need),
    decreases s.len(),
{
    if need > 0 {
        let all = s + more;
        assert(all[0] == s[0]);
        if s[0] == ZDLE {
            assert(all[1] == s[1]);
            assert(all.skip(2) =~= s.skip(2) + more);
            values_stable(s.skip(2), (need - 1) as nat, more);
        } else {
            assert(all.skip(1) =~= s.skip(1) + more);
            if is_flow(s[0]) {
                values_stable(s.skip(1), need, more);
            } else {
                values_stable(s.skip(1), (need - 1) as nat, more);
            }
        }
    }
}

/// What has been read of a subpacket's data does not change with what comes
/// later.
pub proof fn body_stable(s: Seq<u8>, more: Seq<u8>)
    requires
        body_of(s) is Some,
    ensures
        body_of(s + more) == body_of(s),
    decreases s.len(),
{
    let all = s + more;
    assert(all[0] == s[0]);
    if s[0] == ZDLE {
        assert(all[1] == s[1]);
        if !is_end(s[1]) {
            assert(all.skip(2) =~= s.skip(2) + more);
            body_stable(s.skip(2), more);
        }
    } else {
        assert(all.skip(1) =~= s.skip(1) + more);
        body_stable(s.skip(1), more);
    }
}

/// A subpacket that has been read does not change with what comes later.
pub proof fn raw_stable(s: Seq<u8>, crc_len: nat, more: Seq<u8>)
    requires
        raw_of(s, crc_len) is Some,
    ensures
        raw_of(s + more, crc_len) == raw_of(s, crc_len),
{
    body_stable(s, more);
    let (d, e, n) = body_of(s)->0;
    lemma_body_bound(s);
    assert((s + more).skip(n as int) =~= s.skip(n as int) + more);
    values_stable(s.skip(n as int), crc_len, more);
}

/// Bytes that complete the values which `s` lacks lie behind `s`.
pub proof fn values_reach(s: Seq<u8>, need: nat, more: Seq<u8>)
    requires
        values_of(s, need) is None,
    ensures
        values_of(s + more, need) matches Some((v, n)) ==> n > s.len(),
    decreases s.len(),
{
    let all = s + more;
    if s.len() == 0 {
        lemma_values_bound(all, need);
    } else {
        assert(all[0] == s[0]);
        if s[0] == ZDLE {
            if s.len() > 1 {
                assert(all[1] == s[1]);
                assert(all.skip(2) =~= s.skip(2) + more);
                values_reach(s.skip(2), (need - 1) as nat, more);
            }
        } else {
            assert(all.skip(1) =~= s.skip(1) + more);
            if is_flow(s[0]) {
                values_reach(s.skip(1), need, more);
            } else {
                values_reach(s.skip(1), (need - 1) as nat, more);
            }
        }
    }
}

/// A terminator that `s` lacks lies behind `s`.
pub proof fn body_reaches(s: Seq<u8>, more: Seq<u8>)
    requires
        body_of(s) is None,
    ensures
        body_of(s + more) matches Some((d, e, n)) ==> n > s.len(),
    decreases s.len(),
{
    let all = s + more;
    if s.len() == 0 {
        lemma_body_bound(all);
    } else {
        assert(all[0] == s[0]);
        if s[0] == ZDLE {
            if s.len() > 1 {
                assert(all[1] == s[1]);
                assert(all.skip(2) =~= s.skip(2) + more);
                body_reaches(s.skip(2), more);
            } else {
                lemma_body_bound(all);
            }
        } else {
            assert(all.skip(1) =~= s.skip(1) + more);
            body_reaches(s.skip(1), more);
        }
    }
}

/// Bytes that complete the subpacket which `s` begins lie behind `s`.
pub proof fn raw_reaches(s: Seq<u8>, crc_len: nat, more: Seq<u8>)
    requires
        raw_of(s, crc_len) is None,
    ensures
        raw_of(s + more, crc_len) matches Some(r) ==> r.used > s.len(),
{
    match body_of(s) {
        None => body_reaches(s, more),
        Some((d, e, n)) => {
            body_stable(s, more);
            lemma_body_bound(s);
            assert((s + more).skip(n as int) =~= s.skip(n as int) + more);
            values_reach(s.skip(n as int), crc_len, more);
        },
    }
}

} // verus!
