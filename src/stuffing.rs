//! Byte stuffing: a data byte equal to the sync byte or the escape byte is
//! sent as the escape byte followed by the byte XOR 0x20.
use vstd::prelude::*;

verus! {

/// Marks the start of a frame.
pub const SYNC_BYTE: u8 = 0x7E;

/// Introduces an escaped byte.
pub const ESCAPE_BYTE: u8 = 0x7D;

/// XOR mask applied to an escaped byte.
pub const ESCAPE_XOR: u8 = 0x20;

/// Whether a byte must be escaped.
pub open spec fn needs_escape(b: u8) -> bool {
    b == SYNC_BYTE || b == ESCAPE_BYTE
}

/// How one byte is sent.
pub open spec fn stuff_byte(b: u8) -> Seq<u8> {
    if needs_escape(b) {
        seq![ESCAPE_BYTE, (b ^ ESCAPE_XOR) as u8]
    } else {
        seq![b]
    }
}

/// The stuffed form of a payload.
pub open spec fn stuff(p: Seq<u8>) -> Seq<u8>
    decreases p.len(),
{
    if p.len() == 0 {
        seq![]
    } else {
        stuff_byte(p[0]) + stuff(p.skip(1))
    }
}

/// The payload that a stuffed byte sequence stands for; `None` where it ends
/// in a lone escape byte.
pub open spec fn unstuff(s: Seq<u8>) -> Option<Seq<u8>>
    decreases s.len(),
{
    if s.len() == 0 {
        Some(seq![])
    } else if s[0] == ESCAPE_BYTE {
        if s.len() < 2 {
            None
        } else {
            match unstuff(s.skip(2)) {
                Some(r) => Some(seq![(s[1] ^ ESCAPE_XOR) as u8] + r),
                None => None,
            }
        }
    } else {
        match unstuff(s.skip(1)) {
            Some(r) => Some(seq![s[0]] + r),
            None => None,
        }
    }
}

proof fn lemma_stuff_append(a: Seq<u8>, b: u8)
    ensures
        stuff(a.push(b)) == stuff(a) + stuff_byte(b),
    decreases a.len(),
{
    if a.len() == 0 {
        assert(a.push(b).skip(1) =~= Seq::<u8>::empty());
        assert(stuff(a.push(b)) =~= stuff_byte(b) + stuff(Seq::<u8>::empty()));
        assert(stuff(a) + stuff_byte(b) =~= stuff_byte(b));
        assert(stuff_byte(b) + Seq::<u8>::empty() =~= stuff_byte(b));
    } else {
        assert(a.push(b).skip(1) =~= a.skip(1).push(b));
        lemma_stuff_append(a.skip(1), b);
        assert(stuff(a.push(b)) =~= stuff_byte(a[0]) + (stuff(a.skip(1)) + stuff_byte(b)));
    }
}

/// Unstuffing the stuffed form of any payload gives the payload back.
pub proof fn lemma_unstuff_stuff(p: Seq<u8>)
    ensures
        unstuff(stuff(p)) == Some(p),
    decreases p.len(),
{
    if p.len() == 0 {
    } else {
        let b = p[0];
        let rest = stuff(p.skip(1));
        lemma_unstuff_stuff(p.skip(1));
        let s = stuff(p);
        assert(s == stuff_byte(b) + rest);
        if needs_escape(b) {
            assert(((b ^ ESCAPE_XOR) as u8 ^ ESCAPE_XOR) as u8 == b) by (bit_vector);
            assert(s.skip(2) =~= rest);
            assert(s[0] == ESCAPE_BYTE);
            assert(seq![b] + p.skip(1) =~= p);
        } else {
            assert(s.skip(1) =~= rest);
            assert(s[0] == b);
            assert(seq![b] + p.skip(1) =~= p);
        }
    }
}

/// Stuffs `payload` onto the end of `dst`.
pub fn escape(payload: &[u8], dst: &mut Vec<u8>)
    ensures
        final(dst)@ == old(dst)@ + stuff(payload@),
{
    let ghost start = dst@;
    let mut i: usize = 0;
    while i < payload.len()
        invariant
            i <= payload@.len(),
            dst@ == start + stuff(payload@.subrange(0, i as int)),
        decreases payload@.len() - i,
    {
        let b = payload[i];
        if b == SYNC_BYTE || b == ESCAPE_BYTE {
            dst.push(ESCAPE_BYTE);
            dst.push(b ^ ESCAPE_XOR);
        } else {
            dst.push(b);
        }
        proof {
            let pre = payload@.subrange(0, i as int);
            assert(payload@.subrange(0, i as int + 1) =~= pre.push(b));
            lemma_stuff_append(pre, b);
            assert(dst@ =~= start + stuff(pre) + stuff_byte(b));
        }
        i += 1;
    }
    proof {
        assert(payload@.subrange(0, payload@.len() as int) =~= payload@);
    }
}

/// Prepends `a` to an optional sequence.
pub open spec fn prepend(a: Seq<u8>, o: Option<Seq<u8>>) -> Option<Seq<u8>> {
    match o {
        Some(r) => Some(a + r),
        None => None,
    }
}

/// Undoes byte stuffing; `None` where the input ends in a lone escape byte.
pub fn unescape(s: &[u8]) -> (r: Option<Vec<u8>>)
    ensures
        match unstuff(s@) {
            Some(p) => r.is_some() && r.unwrap()@ == p,
            None => r.is_none(),
        },
{
    let mut out: Vec<u8> = Vec::new();
    let mut i: usize = 0;
    proof {
        assert(s@.skip(0) =~= s@);
        assert(Seq::<u8>::empty() + s@ =~= s@);
        match unstuff(s@) {
            Some(p) => assert(out@ + p =~= p),
            None => {},
        }
    }
    while i < s.len()
        invariant
            i <= s@.len(),
            unstuff(s@) == prepend(out@, unstuff(s@.skip(i as int))),
        decreases s@.len() - i,
    {
        let b = s[i];
        let ghost t = s@.skip(i as int);
        if b == ESCAPE_BYTE {
            if i + 1 >= s.len() {
                assert(t.len() < 2);
                return None;
            }
            let v = s[i + 1] ^ ESCAPE_XOR;
            proof {
                assert(t.skip(2) =~= s@.skip(i + 2));
                match unstuff(t.skip(2)) {
                    Some(r) => {
                        assert(out@.push(v) + r =~= out@ + (seq![v] + r));
                    },
                    None => {},
                }
            }
            out.push(v);
            i += 2;
        } else {
            proof {
                assert(t.skip(1) =~= s@.skip(i + 1));
                match unstuff(t.skip(1)) {
                    Some(r) => {
                        assert(out@.push(b) + r =~= out@ + (seq![b] + r));
                    },
                    None => {},
                }
            }
            out.push(b);
            i += 1;
        }
    }
    proof {
        assert(s@.skip(i as int) =~= Seq::<u8>::empty());
        assert(out@ + Seq::<u8>::empty() =~= out@);
    }
    Some(out)
}

/// The first `n` payload bytes that the stuffed bytes `s` stand for, and how
/// many stuffed bytes they take; `None` where `s` ends first.
pub open spec fn unstuff_n(s: Seq<u8>, n: nat) -> Option<(Seq<u8>, int)>
    decreases n,
{
    if n == 0 {
        Some((seq![], 0))
    } else if s.len() == 0 {
        None
    } else if s[0] == ESCAPE_BYTE {
        if s.len() < 2 {
            None
        } else {
            match unstuff_n(s.skip(2), (n - 1) as nat) {
                Some((q, c)) => Some((seq![(s[1] ^ ESCAPE_XOR) as u8] + q, c + 2)),
                None => None,
            }
        }
    } else {
        match unstuff_n(s.skip(1), (n - 1) as nat) {
            Some((q, c)) => Some((seq![s[0]] + q, c + 1)),
            None => None,
        }
    }
}

/// Unstuffing as many payload bytes as were stuffed gives them back, however
/// the stuffed bytes continue.
pub proof fn lemma_unstuff_n_stuff(p: Seq<u8>, rest: Seq<u8>)
    ensures
        unstuff_n(stuff(p) + rest, p.len()) == Some((p, stuff(p).len() as int)),
    decreases p.len(),
{
    if p.len() > 0 {
        let b = p[0];
        let s = stuff(p) + rest;
        lemma_unstuff_n_stuff(p.skip(1), rest);
        assert(s == stuff_byte(b) + (stuff(p.skip(1)) + rest));
        if needs_escape(b) {
            assert(((b ^ ESCAPE_XOR) as u8 ^ ESCAPE_XOR) as u8 == b) by (bit_vector);
            assert(s.skip(2) =~= stuff(p.skip(1)) + rest);
        } else {
            assert(s.skip(1) =~= stuff(p.skip(1)) + rest);
        }
        assert(seq![b] + p.skip(1) =~= p);
    }
}

/// Unstuffs `n` payload bytes from `s[start..]`; returns them and the index
/// just past the stuffed bytes they took, or `None` where `s` ends first.
pub fn unescape_n(s: &[u8], start: usize, n: usize) -> (r: Option<(Vec<u8>, usize)>)
    requires
        start <= s@.len(),
    ensures
        match unstuff_n(s@.skip(start as int), n as nat) {
            Some((q, c)) => r is Some && r->Some_0.0@ == q && r->Some_0.1 == start + c,
            None => r is None,
        },
        r is Some ==> start <= r->Some_0.1 <= s@.len(),
{
    let mut out: Vec<u8> = Vec::new();
    let mut i: usize = start;
    proof {
        match unstuff_n(s@.skip(start as int), n as nat) {
            Some((q, c)) => assert(out@ + q =~= q),
            None => {},
        }
    }
    while out.len() < n
        invariant
            start <= i <= s@.len(),
            out@.len() <= n,
            match unstuff_n(s@.skip(i as int), (n - out@.len()) as nat) {
                Some((q, c)) => unstuff_n(s@.skip(start as int), n as nat) == Some(
                    (out@ + q, i - start + c),
                ),
                None => unstuff_n(s@.skip(start as int), n as nat) is None,
            },
        decreases n - out@.len(),
    {
        let ghost t = s@.skip(i as int);
        let ghost need = (n - out@.len()) as nat;
        if i >= s.len() {
            return None;
        }
        let b = s[i];
        if b == ESCAPE_BYTE {
            if i + 1 >= s.len() {
                return None;
            }
            let v = s[i + 1] ^ ESCAPE_XOR;
            proof {
                assert(t.skip(2) =~= s@.skip(i + 2));
                match unstuff_n(t.skip(2), (need - 1) as nat) {
                    Some((q, c)) => {
                        assert(out@.push(v) + q =~= out@ + (seq![v] + q));
                    },
                    None => {},
                }
            }
            out.push(v);
            i += 2;
        } else {
            proof {
                assert(t.skip(1) =~= s@.skip(i + 1));
                match unstuff_n(t.skip(1), (need - 1) as nat) {
                    Some((q, c)) => {
                        assert(out@.push(b) + q =~= out@ + (seq![b] + q));
                    },
                    None => {},
                }
            }
            out.push(b);
            i += 1;
        }
    }
    proof {
        assert(out@ + Seq::<u8>::empty() =~= out@);
    }
    Some((out, i))
}

/// Index of the first sync byte of `s`, or its length where it holds none.
pub open spec fn sync_index(s: Seq<u8>) -> int
    decreases s.len(),
{
    if s.len() == 0 {
        0
    } else if s[0] == SYNC_BYTE {
        0
    } else {
        1 + sync_index(s.skip(1))
    }
}

proof fn lemma_sync_index(s: Seq<u8>, k: int)
    requires
        0 <= k <= s.len(),
        forall|j: int| 0 <= j < k ==> s[j] != SYNC_BYTE,
        k == s.len() || s[k] == SYNC_BYTE,
    ensures
        sync_index(s) == k,
    decreases s.len(),
{
    if s.len() == 0 || s[0] == SYNC_BYTE {
    } else {
        assert forall|j: int| 0 <= j < k - 1 implies s.skip(1)[j] != SYNC_BYTE by {
            assert(s[j + 1] != SYNC_BYTE);
        }
        lemma_sync_index(s.skip(1), k - 1);
    }
}

/// Position of the first sync byte in `s`, or `s.len()` where there is none.
pub fn find_sync(s: &[u8]) -> (k: usize)
    ensures
        k as int == sync_index(s@),
        k <= s@.len(),
{
    let mut k: usize = 0;
    while k < s.len() && s[k] != SYNC_BYTE
        invariant
            k <= s@.len(),
            forall|j: int| 0 <= j < k ==> s@[j] != SYNC_BYTE,
        decreases s@.len() - k,
    {
        k += 1;
    }
    proof {
        lemma_sync_index(s@, k as int);
    }
    k
}

} // verus!
