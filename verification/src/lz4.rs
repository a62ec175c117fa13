//! An LZ4 block decompressor that hands its output to a caller-supplied
//! sink: runs of literal bytes, and back-references into what the sink
//! already holds.
//!
//! The stream is a sequence of blocks: a token byte whose high nibble starts
//! the literal length and whose low nibble starts the match length, the
//! extension bytes of the literal length, the literals, a two-byte
//! little-endian offset, and the extension bytes of the match length, to
//! which 4 is added. A block holding only literals ends the stream.

use vstd::prelude::*;

verus! {

/// One delivery to the sink.
pub enum Lz4Event {
    /// A run of literal bytes, verbatim.
    Literal(Seq<u8>),
    /// `len` bytes copied from `offset` bytes back in the produced output.
    Backref { offset: int, len: int },
}

/// Where decompressed output goes. Implementations report the events they
/// have accepted; either call may refuse by returning `None`, which stops
/// the decompressor.
pub trait Sink {
    /// The deliveries accepted so far. An implementation outside the
    /// verified world may leave this at its default.
    open spec fn events(&self) -> Seq<Lz4Event> {
        Seq::<Lz4Event>::empty()
    }

    /// Accept a run of literal bytes.
    fn literal(&mut self, data: &[u8]) -> (r: Option<()>)
        ensures
            r.is_some() ==> final(self).events() == old(self).events().push(
                Lz4Event::Literal(data@),
            ),
    ;

    /// Accept a back-reference of `length` bytes starting `offset` bytes
    /// back.
    fn backref(&mut self, offset: usize, length: usize) -> (r: Option<()>)
        ensures
            r.is_some() ==> final(self).events() == old(self).events().push(
                Lz4Event::Backref { offset: offset as int, len: length as int },
            ),
    ;
}

/// A length extension: starting from `acc`, add bytes while they read 255,
/// ending with the first other byte. The result is the value and the number
/// of bytes used; it fails on the end of input and on machine overflow.
pub open spec fn ext_len(s: Seq<u8>, acc: int) -> Option<(int, int)>
    decreases s.len(),
{
    if s.len() == 0 {
        None
    } else {
        let b = s[0] as int;
        if acc + b > usize::MAX as int {
            None
        } else if b != 255 {
            Some((acc + b, 1))
        } else {
            match ext_len(s.drop_first(), acc + b) {
                None => None,
                Some((v, u)) => Some((v, u + 1)),
            }
        }
    }
}

/// A length field: a nibble below 15 stands alone; 15 is extended.
pub open spec fn ext_full(s: Seq<u8>, len0: int) -> Option<(int, int)> {
    if len0 != 15 {
        Some((len0, 0))
    } else {
        ext_len(s, 15)
    }
}

/// Bounds of a successful length extension.
pub proof fn lemma_ext_len_bounds(s: Seq<u8>, acc: int)
    requires
        acc >= 0,
    ensures
        ext_len(s, acc) matches Some(vu) ==> vu.0 >= acc && 1 <= vu.1 <= s.len(),
    decreases s.len(),
{
    if s.len() > 0 {
        lemma_ext_len_bounds(s.drop_first(), acc + s[0]);
    }
}

/// Bounds of a successful length field.
pub proof fn lemma_ext_full_bounds(s: Seq<u8>, len0: int)
    requires
        0 <= len0 <= 15,
    ensures
        ext_full(s, len0) matches Some(vu) ==> vu.0 >= 0 && 0 <= vu.1 <= s.len(),
{
    lemma_ext_len_bounds(s, 15);
}

/// The events encoded by the stream `s`, appended to `acc`: `None` where the
/// stream is malformed or truncated.
pub open spec fn lz4_run(s: Seq<u8>, acc: Seq<Lz4Event>) -> Option<Seq<Lz4Event>>
    decreases s.len(),
    via lz4_run_decreases
{
    if s.len() == 0 {
        None
    } else {
        let token = s[0];
        match ext_full(s.subrange(1, s.len() as int), (token >> 4) as int) {
            None => None,
            Some((ll, u1)) => {
                let lp = 1 + u1;
                if lp + ll > s.len() {
                    None
                } else {
                    let acc2 = acc.push(Lz4Event::Literal(s.subrange(lp, lp + ll)));
                    let q = lp + ll;
                    if q == s.len() {
                        Some(acc2)
                    } else if q + 1 == s.len() {
                        None
                    } else {
                        let off = s[q] + s[q + 1] * 256;
                        match ext_full(s.subrange(q + 2, s.len() as int), (token & 0x0f) as int) {
                            None => None,
                            Some((ml, u2)) => {
                                if ml + 4 > usize::MAX as int {
                                    None
                                } else {
                                    lz4_run(
                                        s.subrange(q + 2 + u2, s.len() as int),
                                        acc2.push(Lz4Event::Backref { offset: off, len: ml + 4 }),
                                    )
                                }
                            },
                        }
                    }
                }
            },
        }
    }
}

#[via_fn]
proof fn lz4_run_decreases(s: Seq<u8>, acc: Seq<Lz4Event>) {
    if s.len() > 0 {
        let token = s[0];
        assert((token >> 4) <= 15) by (bit_vector);
        assert((token & 0x0f) <= 15) by (bit_vector);
        lemma_ext_full_bounds(s.subrange(1, s.len() as int), (token >> 4) as int);
        match ext_full(s.subrange(1, s.len() as int), (token >> 4) as int) {
            None => {},
            Some((ll, u1)) => {
                let lp = 1 + u1;
                if lp + ll <= s.len() {
                    let q = lp + ll;
                    if q + 1 < s.len() {
                        lemma_ext_full_bounds(
                            s.subrange(q + 2, s.len() as int),
                            (token & 0x0f) as int,
                        );
                    }
                }
            },
        }
    }
}

/// The events encoded by the whole stream.
pub open spec fn lz4_events(s: Seq<u8>) -> Option<Seq<Lz4Event>> {
    lz4_run(s, Seq::<Lz4Event>::empty())
}

/// Running with an accumulator only prepends it: decoding does not depend on
/// what was already delivered.
pub proof fn lemma_lz4_run_acc(s: Seq<u8>, acc: Seq<Lz4Event>)
    ensures
        lz4_run(s, acc).is_some() == lz4_events(s).is_some(),
        lz4_run(s, acc).is_some() ==> lz4_run(s, acc).unwrap() == acc + lz4_events(s).unwrap(),
    decreases s.len(),
{
    if s.len() == 0 {
    } else {
        let token = s[0];
        match ext_full(s.subrange(1, s.len() as int), (token >> 4) as int) {
            None => {},
            Some((ll, u1)) => {
                assert((token >> 4) <= 15) by (bit_vector);
                assert((token & 0x0f) <= 15) by (bit_vector);
                lemma_ext_full_bounds(s.subrange(1, s.len() as int), (token >> 4) as int);
                let lp = 1 + u1;
                if lp + ll > s.len() {
                } else {
                    let lit = Lz4Event::Literal(s.subrange(lp, lp + ll));
                    let q = lp + ll;
                    if q == s.len() {
                        assert(acc.push(lit) =~= acc + Seq::<Lz4Event>::empty().push(lit));
                    } else if q + 1 == s.len() {
                    } else {
                        let off = s[q] + s[q + 1] * 256;
                        match ext_full(s.subrange(q + 2, s.len() as int), (token & 0x0f) as int) {
                            None => {},
                            Some((ml, u2)) => {
                                if ml + 4 > usize::MAX as int {
                                } else {
                                    lemma_ext_full_bounds(
                                        s.subrange(q + 2, s.len() as int),
                                        (token & 0x0f) as int,
                                    );
                                    let rest = s.subrange(q + 2 + u2, s.len() as int);
                                    let br = Lz4Event::Backref { offset: off, len: ml + 4 };
                                    lemma_lz4_run_acc(rest, acc.push(lit).push(br));
                                    lemma_lz4_run_acc(
                                        rest,
                                        Seq::<Lz4Event>::empty().push(lit).push(br),
                                    );
                                    if lz4_run(rest, acc.push(lit).push(br)).is_some() {
                                        assert(acc.push(lit).push(br) + lz4_events(rest).unwrap()
                                            =~= acc + (Seq::<Lz4Event>::empty().push(lit).push(br)
                                            + lz4_events(rest).unwrap()));
                                    }
                                }
                            },
                        }
                    }
                }
            },
        }
    }
}

/// The bytes a back-reference of `len` bytes at distance `offset` produces
/// over the output `out`, reading `dict` below its start; copies may overlap
/// what they produce.
pub open spec fn backref_bytes(dict: Seq<u8>, out: Seq<u8>, offset: int, len: int) -> Seq<u8>
    decreases len,
{
    if len <= 0 {
        Seq::<u8>::empty()
    } else {
        let prev = backref_bytes(dict, out, offset, len - 1);
        let pos = out.len() + (len - 1) - offset;
        let b = if pos < 0 {
            dict[dict.len() + pos]
        } else {
            (out + prev)[pos]
        };
        prev.push(b)
    }
}

/// A back-reference produces exactly as many bytes as asked for.
pub proof fn lemma_backref_len(dict: Seq<u8>, out: Seq<u8>, offset: int, len: int)
    ensures
        backref_bytes(dict, out, offset, len).len() == (if len <= 0 {
            0
        } else {
            len
        }),
    decreases len,
{
    if len > 0 {
        lemma_backref_len(dict, out, offset, len - 1);
    }
}

/// A sink that materializes the decompressed bytes in memory, with an
/// optional dictionary for back-references reaching before the start of the
/// output.
pub struct VecSink {
    pub dict: Vec<u8>,
    pub out: Vec<u8>,
    pub evs: Ghost<Seq<Lz4Event>>,
}

impl VecSink {
    pub fn new(dict: Vec<u8>) -> (r: VecSink)
        ensures
            r.dict@ == dict@,
            r.out@ == Seq::<u8>::empty(),
            r.events() == Seq::<Lz4Event>::empty(),
    {
        VecSink { dict, out: Vec::new(), evs: Ghost(Seq::empty()) }
    }
}

impl Sink for VecSink {
    open spec fn events(&self) -> Seq<Lz4Event> {
        self.evs@
    }

    /// Literals always fit: they are appended verbatim.
    fn literal(&mut self, data: &[u8]) -> (r: Option<()>)
        ensures
            r.is_some(),
            final(self).dict@ == old(self).dict@,
            final(self).out@ == old(self).out@ + data@,
    {
        let n = data.len();
        let mut i: usize = 0;
        while i < n
            invariant
                n == data@.len(),
                0 <= i <= n,
                self.dict@ == old(self).dict@,
                self.evs == old(self).evs,
                self.out@ == old(self).out@ + data@.subrange(0, i as int),
            decreases n - i,
        {
            self.out.push(data[i]);
            proof {
                assert(old(self).out@ + data@.subrange(0, i as int) + seq![data@[i as int]]
                    =~= old(self).out@ + data@.subrange(0, i + 1));
            }
            i = i + 1;
        }
        proof {
            assert(data@.subrange(0, n as int) =~= data@);
        }
        self.evs = Ghost(self.evs@.push(Lz4Event::Literal(data@)));
        Some(())
    }

    /// A back-reference is refused when it reaches below the dictionary or
    /// nowhere at all; otherwise it appends its bytes, possibly overlapping
    /// what it produces.
    fn backref(&mut self, offset: usize, length: usize) -> (r: Option<()>)
        ensures
            r.is_some() <==> 0 < offset <= old(self).out@.len() + old(self).dict@.len(),
            final(self).dict@ == old(self).dict@,
            r.is_some() ==> final(self).out@ == old(self).out@ + backref_bytes(
                old(self).dict@,
                old(self).out@,
                offset as int,
                length as int,
            ),
            r.is_none() ==> *final(self) == *old(self),
    {
        let olen: usize = self.out.len();
        let dlen: usize = self.dict.len();
        if offset == 0 || (offset > olen && offset - olen > dlen) {
            return None;
        }
        let mut i: usize = 0;
        while i < length
            invariant
                0 <= i <= length,
                0 < offset <= old(self).out@.len() + old(self).dict@.len(),
                olen == old(self).out@.len(),
                dlen == old(self).dict@.len(),
                self.dict@ == old(self).dict@,
                self.evs == old(self).evs,
                self.out@ == old(self).out@ + backref_bytes(
                    old(self).dict@,
                    old(self).out@,
                    offset as int,
                    i as int,
                ),
            decreases length - i,
        {
            let ghost prev = backref_bytes(old(self).dict@, old(self).out@, offset as int, i as int);
            proof {
                lemma_backref_len(old(self).dict@, old(self).out@, offset as int, i as int);
                lemma_backref_len(old(self).dict@, old(self).out@, offset as int, i + 1);
            }
            let cur: usize = self.out.len();
            assert(cur == olen + i);
            let b: u8 = if cur >= offset {
                self.out[cur - offset]
            } else {
                assert(offset - cur <= dlen);
                self.dict[dlen - (offset - cur)]
            };
            proof {
                let pos = olen + i - (offset as int);
                if pos >= 0 {
                    assert(self.out@[pos] == (old(self).out@ + prev)[pos]);
                } else {
                    assert(dlen - ((offset as int) - (olen + i)) == self.dict@.len() + pos);
                }
            }
            self.out.push(b);
            proof {
                assert(self.out@ =~= old(self).out@ + backref_bytes(
                    old(self).dict@,
                    old(self).out@,
                    offset as int,
                    i + 1,
                ));
            }
            i = i + 1;
        }
        self.evs = Ghost(
            self.evs@.push(Lz4Event::Backref { offset: offset as int, len: length as int }),
        );
        Some(())
    }
}

/// Read a length extension starting at `*p`, advancing `*p` over the bytes
/// it uses.
fn extend_length(source: &[u8], p: &mut usize, len: usize) -> (r: Option<usize>)
    requires
        *old(p) <= source@.len(),
    ensures
        *old(p) <= *final(p) <= source@.len(),
        match r {
            Some(v) => ext_full(source@.subrange(*old(p) as int, source@.len() as int), len as int)
                == Some((v as int, *final(p) - *old(p))),
            None => ext_full(
                source@.subrange(*old(p) as int, source@.len() as int),
                len as int,
            ).is_none(),
        },
{
    let n = source.len();
    if len != 15 {
        return Some(len);
    }
    let mut length: usize = 15;
    loop
        invariant
            *old(p) <= *p <= n,
            n == source@.len(),
            len == 15,
            length >= 15,
            (match ext_len(source@.subrange(*p as int, n as int), length as int) {
                Some(vu) => Some((vu.0, vu.1 + (*p - *old(p)))),
                None => None::<(int, int)>,
            }) == ext_len(source@.subrange(*old(p) as int, n as int), 15),
        decreases n - *p,
    {
        let ghost rem = source@.subrange(*p as int, n as int);
        let ghost pre_len = length as int;
        if *p >= n {
            return None;
        }
        let b = source[*p];
        proof {
            assert(rem[0] == source@[*p as int]);
            assert(rem.drop_first() =~= source@.subrange(*p + 1, n as int));
        }
        if b as usize > usize::MAX - length {
            return None;
        }
        length = length + b as usize;
        *p = *p + 1;
        if b != 255 {
            proof {
                assert(ext_len(rem, pre_len) == Some((length as int, 1int)));
            }
            return Some(length);
        }
        proof {
            assert(ext_len(rem, pre_len) == (match ext_len(source@.subrange(*p as int, n as int),
                length as int) {
                Some(vu) => Some((vu.0, vu.1 + 1)),
                None => None::<(int, int)>,
            }));
        }
    }
}

/// Decompress the LZ4 stream `source` into `sink`. On success, exactly the
/// events the stream encodes were delivered to the sink, in order. A
/// malformed or truncated stream always yields `None`; a sink refusing a
/// delivery is the only other source of `None` (`decompress_to_vec` below
/// shows that with a sink that refuses nothing in reach, a well-formed
/// stream always succeeds).
pub fn decompress<S: Sink>(source: &[u8], sink: &mut S) -> (r: Option<()>)
    ensures
        r.is_some() ==> lz4_events(source@).is_some() && final(sink).events() == old(
            sink,
        ).events() + lz4_events(source@).unwrap(),
        lz4_events(source@).is_none() ==> r.is_none(),
{
    let n = source.len();
    let mut p: usize = 0;
    proof {
        assert(source@.subrange(0, n as int) =~= source@);
    }
    loop
        invariant
            0 <= p <= n,
            n == source@.len(),
            lz4_run(source@.subrange(p as int, n as int), sink.events()) == lz4_run(
                source@,
                old(sink).events(),
            ),
        decreases n - p,
    {
        let ghost rem = source@.subrange(p as int, n as int);
        let ghost ev0 = sink.events();
        if p >= n {
            return None;
        }
        let token = source[p];
        proof {
            assert(rem[0] == source@[p as int]);
        }
        let p1: usize = p + 1;
        let mut q: usize = p1;
        proof {
            assert(rem.subrange(1, rem.len() as int) =~= source@.subrange(p1 as int, n as int));
        }
        let ll = match extend_length(source, &mut q, (token >> 4) as usize) {
            None => {
                return None;
            },
            Some(v) => v,
        };
        let ghost u1 = q - p1;
        if ll > n - q {
            proof {
                assert(1 + u1 + ll > rem.len());
            }
            return None;
        }
        let lits = vstd::slice::slice_subrange(source, q, q + ll);
        proof {
            assert(lits@ =~= rem.subrange(1 + u1, 1 + u1 + ll));
        }
        match sink.literal(lits) {
            None => {
                return None;
            },
            Some(_) => {},
        }
        let q2: usize = q + ll;
        if q2 == n {
            proof {
                assert(lz4_run(rem, ev0) == Some(sink.events()));
                lemma_lz4_run_acc(source@, old(sink).events());
            }
            return Some(());
        }
        if q2 + 1 == n {
            return None;
        }
        let off: usize = (source[q2] as usize) + (source[q2 + 1] as usize) * 256;
        proof {
            assert(rem[1 + u1 + ll] == source@[q2 as int]);
            assert(rem[1 + u1 + ll + 1] == source@[q2 + 1]);
            assert(rem.subrange(1 + u1 + ll + 2, rem.len() as int) =~= source@.subrange(
                q2 + 2,
                n as int,
            ));
        }
        let mut q3: usize = q2 + 2;
        let ml = match extend_length(source, &mut q3, (token & 0x0f) as usize) {
            None => {
                return None;
            },
            Some(v) => v,
        };
        let ghost u2 = q3 - (q2 + 2);
        if ml > usize::MAX - 4 {
            return None;
        }
        match sink.backref(off, ml + 4) {
            None => {
                return None;
            },
            Some(_) => {},
        }
        proof {
            assert(rem.subrange(1 + u1 + ll + 2 + u2, rem.len() as int) =~= source@.subrange(
                q3 as int,
                n as int,
            ));
            assert(lz4_run(rem, ev0) == lz4_run(source@.subrange(q3 as int, n as int),
                sink.events()));
        }
        p = q3;
    }
}

/// The bytes the stream `s` decodes to, appended to `out`, with `dict` below
/// its start: `None` where the stream is malformed or truncated, where an
/// extended length overflows the machine, or where a back-reference reaches
/// below the dictionary or nowhere at all.
pub open spec fn lz4_vec_run(s: Seq<u8>, dict: Seq<u8>, out: Seq<u8>) -> Option<Seq<u8>>
    decreases s.len(),
    via lz4_vec_run_decreases
{
    if s.len() == 0 {
        None
    } else {
        let token = s[0];
        match ext_full(s.subrange(1, s.len() as int), (token >> 4) as int) {
            None => None,
            Some((ll, u1)) => {
                let lp = 1 + u1;
                if lp + ll > s.len() {
                    None
                } else {
                    let out2 = out + s.subrange(lp, lp + ll);
                    let q = lp + ll;
                    if q == s.len() {
                        Some(out2)
                    } else if q + 1 == s.len() {
                        None
                    } else {
                        let off = s[q] + s[q + 1] * 256;
                        match ext_full(s.subrange(q + 2, s.len() as int), (token & 0x0f) as int) {
                            None => None,
                            Some((ml, u2)) => {
                                if ml + 4 > usize::MAX as int {
                                    None
                                } else if !(0 < off <= out2.len() + dict.len()) {
                                    None
                                } else {
                                    lz4_vec_run(
                                        s.subrange(q + 2 + u2, s.len() as int),
                                        dict,
                                        out2 + backref_bytes(dict, out2, off, ml + 4),
                                    )
                                }
                            },
                        }
                    }
                }
            },
        }
    }
}

#[via_fn]
proof fn lz4_vec_run_decreases(s: Seq<u8>, dict: Seq<u8>, out: Seq<u8>) {
    if s.len() > 0 {
        let token = s[0];
        assert((token >> 4) <= 15) by (bit_vector);
        assert((token & 0x0f) <= 15) by (bit_vector);
        lemma_ext_full_bounds(s.subrange(1, s.len() as int), (token >> 4) as int);
        match ext_full(s.subrange(1, s.len() as int), (token >> 4) as int) {
            None => {},
            Some((ll, u1)) => {
                let lp = 1 + u1;
                if lp + ll <= s.len() {
                    let q = lp + ll;
                    if q + 1 < s.len() {
                        lemma_ext_full_bounds(
                            s.subrange(q + 2, s.len() as int),
                            (token & 0x0f) as int,
                        );
                    }
                }
            },
        }
    }
}

/// The bytes the whole stream decodes to over the dictionary `dict`.
pub open spec fn lz4_decode(s: Seq<u8>, dict: Seq<u8>) -> Option<Seq<u8>> {
    lz4_vec_run(s, dict, Seq::<u8>::empty())
}

/// Decompress `source` into memory over the dictionary `dict`: the sink here
/// accepts every literal and every back-reference within reach, so the
/// result is `Some` exactly when the stream decodes, and then holds exactly
/// the decoded bytes.
pub fn decompress_to_vec(source: &[u8], dict: Vec<u8>) -> (r: Option<Vec<u8>>)
    ensures
        match lz4_decode(source@, dict@) {
            Some(o) => r.is_some() && r.unwrap()@ == o,
            None => r.is_none(),
        },
{
    let ghost dict0 = dict@;
    let mut sink = VecSink::new(dict);
    let n = source.len();
    let mut p: usize = 0;
    proof {
        assert(source@.subrange(0, n as int) =~= source@);
    }
    loop
        invariant
            0 <= p <= n,
            n == source@.len(),
            dict0 == dict@,
            sink.dict@ == dict0,
            lz4_vec_run(source@.subrange(p as int, n as int), dict0, sink.out@) == lz4_decode(
                source@,
                dict0,
            ),
        decreases n - p,
    {
        let ghost rem = source@.subrange(p as int, n as int);
        let ghost out0 = sink.out@;
        if p >= n {
            return None;
        }
        let token = source[p];
        proof {
            assert(rem[0] == source@[p as int]);
        }
        let p1: usize = p + 1;
        let mut q: usize = p1;
        proof {
            assert(rem.subrange(1, rem.len() as int) =~= source@.subrange(p1 as int, n as int));
        }
        let ll = match extend_length(source, &mut q, (token >> 4) as usize) {
            None => {
                return None;
            },
            Some(v) => v,
        };
        let ghost u1 = q - p1;
        if ll > n - q {
            proof {
                assert(1 + u1 + ll > rem.len());
            }
            return None;
        }
        let lits = vstd::slice::slice_subrange(source, q, q + ll);
        proof {
            assert(lits@ =~= rem.subrange(1 + u1, 1 + u1 + ll));
        }
        let accepted = sink.literal(lits);
        proof {
            assert(accepted.is_some());
        }
        let q2: usize = q + ll;
        if q2 == n {
            proof {
                assert(lz4_vec_run(rem, dict0, out0) == Some(sink.out@));
            }
            return Some(sink.out);
        }
        if q2 + 1 == n {
            return None;
        }
        let off: usize = (source[q2] as usize) + (source[q2 + 1] as usize) * 256;
        proof {
            assert(rem[1 + u1 + ll] == source@[q2 as int]);
            assert(rem[1 + u1 + ll + 1] == source@[q2 + 1]);
            assert(rem.subrange(1 + u1 + ll + 2, rem.len() as int) =~= source@.subrange(
                q2 + 2,
                n as int,
            ));
        }
        let mut q3: usize = q2 + 2;
        let ml = match extend_length(source, &mut q3, (token & 0x0f) as usize) {
            None => {
                return None;
            },
            Some(v) => v,
        };
        let ghost u2 = q3 - (q2 + 2);
        if ml > usize::MAX - 4 {
            return None;
        }
        match sink.backref(off, ml + 4) {
            None => {
                proof {
                    assert(lz4_vec_run(rem, dict0, out0) == None::<Seq<u8>>);
                }
                return None;
            },
            Some(_) => {},
        }
        proof {
            assert(rem.subrange(1 + u1 + ll + 2 + u2, rem.len() as int) =~= source@.subrange(
                q3 as int,
                n as int,
            ));
            assert(lz4_vec_run(rem, dict0, out0) == lz4_vec_run(source@.subrange(q3 as int,
                n as int), dict0, sink.out@));
        }
        p = q3;
    }
}


} // verus!
