//! The encrypted transfer format and its two ends.
//!
//! A sender writes the 7-byte nonce prefix, then the plaintext cut into
//! `CHUNK_SIZE`-byte blocks, each sealed at its position; the last block is
//! shorter (possibly empty) and sealed as the final chunk.  A receiver gets
//! these bytes in arbitrary pieces, as the network delivers them, and gives
//! back the plaintext.

use vstd::prelude::*;
use vstd::array::*;
use vstd::slice::{slice_subrange, slice_to_vec};
use crate::server::download_header_list;
use crate::text::decimal;
use crate::crypto::{
    spec_encrypted_size, stream_open, stream_seal, CryptoError, StreamDecryptor,
    StreamEncryptor, CHUNK_SIZE, ENCRYPTED_CHUNK_SIZE, STREAM_NONCE_SIZE, TAG_SIZE,
};

verus! {

/// The sealed chunks of `data`, the first one at stream position `pos`.
pub open spec fn sealed_chunks(key: Seq<u8>, nonce: Seq<u8>, pos: nat, data: Seq<u8>) -> Seq<u8>
    decreases data.len(),
{
    if data.len() < 65536 {
        stream_seal(key, nonce, pos as u32, true, data)
    } else {
        stream_seal(key, nonce, pos as u32, false, data.take(65536)) + sealed_chunks(
            key,
            nonce,
            pos + 1,
            data.skip(65536),
        )
    }
}

/// The bytes a sender writes for `data`: the nonce prefix, then the chunks.
pub open spec fn sealed_stream(key: Seq<u8>, nonce: Seq<u8>, data: Seq<u8>) -> Seq<u8> {
    nonce + sealed_chunks(key, nonce, 0, data)
}

/// Each chunk of `data` (from position `pos` on) was sealed to a ciphertext
/// one tag longer than its plaintext, which opens to that plaintext.
pub open spec fn chunks_sealed_well(key: Seq<u8>, nonce: Seq<u8>, pos: nat, data: Seq<u8>) -> bool
    decreases data.len(),
{
    if data.len() < 65536 {
        let c = stream_seal(key, nonce, pos as u32, true, data);
        &&& c.len() == data.len() + 16
        &&& stream_open(key, nonce, pos as u32, true, c) == Some(data)
    } else {
        let c = stream_seal(key, nonce, pos as u32, false, data.take(65536));
        &&& c.len() == 65552
        &&& stream_open(key, nonce, pos as u32, false, c) == Some(data.take(65536))
        &&& chunks_sealed_well(key, nonce, pos + 1, data.skip(65536))
    }
}

/// Seals all of `data` into the transfer format.  It fails only when the
/// stream counter would run out (more than 2^32 - 1 full chunks).
pub fn encrypt_stream(key: &[u8; 32], nonce: &[u8; 7], data: &[u8]) -> (res: Result<
    Vec<u8>,
    CryptoError,
>)
    ensures
        res is Ok <==> data@.len() / 65536 <= u32::MAX,
        res matches Ok(c) ==> {
            &&& c@ == sealed_stream(key@, nonce@, data@)
            &&& chunks_sealed_well(key@, nonce@, 0, data@)
            &&& c@.len() == spec_encrypted_size(data@.len())
        },
{
    let mut enc = StreamEncryptor::with_nonce(key, nonce);
    let mut out = slice_to_vec(nonce.as_slice());
    let mut i: usize = 0;
    let ghost mut pos: nat = 0;
    assert(data@.skip(0) =~= data@);
    loop
        invariant
            i <= data@.len(),
            i == pos * 65536,
            pos <= u32::MAX,
            enc.key() == key@,
            enc.nonce() == nonce@,
            enc.position() == pos,
            out@ + sealed_chunks(key@, nonce@, pos, data@.skip(i as int)) == sealed_stream(
                key@,
                nonce@,
                data@,
            ),
            chunks_sealed_well(key@, nonce@, pos, data@.skip(i as int)) ==> chunks_sealed_well(
                key@,
                nonce@,
                0,
                data@,
            ),
            out@.len() == 7 + i + pos * 16,
        decreases data@.len() - i,
    {
        let rest = data.len() - i;
        let end = if rest >= CHUNK_SIZE {
            i + CHUNK_SIZE
        } else {
            data.len()
        };
        let block = slice_subrange(data, i, end);
        let ghost tail = data@.skip(i as int);
        proof {
            if rest >= CHUNK_SIZE {
                assert(block@ =~= tail.take(65536));
                assert(data@.skip(end as int) =~= tail.skip(65536));
            } else {
                assert(block@ =~= tail);
            }
        }
        match enc.encrypt_block(block) {
            Err(e) => {
                proof {
                    assert(data@.len() / 65536 > u32::MAX) by (nonlinear_arith)
                        requires
                            i + 65536 <= data@.len(),
                            i == pos * 65536,
                            pos == u32::MAX,
                    ;
                }
                return Err(e);
            },
            Ok((c, fin)) => {
                let mut c = c;
                let ghost cv = c@;
                out.append(&mut c);
                if fin {
                    proof {
                        assert(data@.len() / 65536 == pos) by (nonlinear_arith)
                            requires
                                i == pos * 65536,
                                i <= data@.len() < i + 65536,
                        ;
                        assert(out@ =~= sealed_stream(key@, nonce@, data@));
                    }
                    return Ok(out);
                }
                proof {
                    assert(sealed_chunks(key@, nonce@, pos, tail) == cv + sealed_chunks(
                        key@,
                        nonce@,
                        pos + 1,
                        data@.skip(end as int),
                    ));
                    assert(out@ + sealed_chunks(key@, nonce@, pos + 1, data@.skip(end as int))
                        =~= sealed_stream(key@, nonce@, data@));
                    pos = pos + 1;
                }
                i = end;
            },
        }
    }
}


/// Seals all of `data` into the transfer format under `key`, with a fresh
/// random nonce prefix, as a joining peer does before uploading.
pub fn encrypt_upload(key: &[u8; 32], data: &[u8]) -> (res: Result<Vec<u8>, CryptoError>)
    ensures
        res is Ok <==> data@.len() / 65536 <= u32::MAX,
        res matches Ok(c) ==> exists|nonce: Seq<u8>|
            {
                &&& nonce.len() == 7
                &&& c@ == #[trigger] sealed_stream(key@, nonce, data@)
                &&& chunks_sealed_well(key@, nonce, 0, data@)
                &&& c@.len() == spec_encrypted_size(data@.len())
            },
{
    let enc = StreamEncryptor::new(key);
    let nonce: [u8; 7] = *enc.nonce_bytes();
    encrypt_stream(key, &nonce, data)
}

/// Opens the full chunks at the front of `data`, the first at stream
/// position `pos`: the plaintext they hold, the bytes left over (fewer than
/// a full encrypted chunk) and the next position; `None` when a chunk does
/// not open or the counter runs out.
pub open spec fn drain_chunks(key: Seq<u8>, nonce: Seq<u8>, pos: nat, data: Seq<u8>) -> Option<
    (Seq<u8>, Seq<u8>, nat),
>
    decreases data.len(),
{
    if data.len() < 65552 {
        Some((Seq::<u8>::empty(), data, pos))
    } else if pos >= u32::MAX {
        None
    } else {
        match stream_open(key, nonce, pos as u32, false, data.take(65552)) {
            None => None,
            Some(p) => match drain_chunks(key, nonce, pos + 1, data.skip(65552)) {
                None => None,
                Some((q, rest, next)) => Some((p + q, rest, next)),
            },
        }
    }
}

/// What a receiver holds between pieces: the nonce bytes read so far (until
/// all 7 have come), the nonce once complete, the next chunk position, and
/// the encrypted bytes not yet opened.
pub ghost struct ReceiverView {
    pub header: Seq<u8>,
    pub nonce: Option<Seq<u8>>,
    pub position: nat,
    pub pending: Seq<u8>,
}

/// A receiver that has received nothing.
pub open spec fn receiver_start() -> ReceiverView {
    ReceiverView {
        header: Seq::empty(),
        nonce: None,
        position: 0,
        pending: Seq::empty(),
    }
}

/// The receiver after `piece` arrives, and the plaintext it gives out;
/// `None` when a chunk fails to open.  The piece that completes the nonce
/// is only buffered: its chunks are opened when the next piece arrives.
pub open spec fn receiver_push(key: Seq<u8>, st: ReceiverView, piece: Seq<u8>) -> Option<
    (ReceiverView, Seq<u8>),
> {
    match st.nonce {
        None => {
            let h = st.header + piece;
            if h.len() < 7 {
                Some((ReceiverView { header: h, ..st }, Seq::empty()))
            } else {
                Some(
                    (
                        ReceiverView {
                            header: Seq::empty(),
                            nonce: Some(h.take(7)),
                            position: 0,
                            pending: h.skip(7),
                        },
                        Seq::empty(),
                    ),
                )
            }
        },
        Some(n) => match drain_chunks(key, n, st.position, st.pending + piece) {
            None => None,
            Some((out, rest, next)) => Some(
                (ReceiverView { pending: rest, position: next, ..st }, out),
            ),
        },
    }
}

/// The plaintext a receiver gives out when the input ends: the bytes left
/// over are opened as the final chunk.  A stream must end with its final
/// chunk, which holds at least its 16-byte tag, so the end of the input is
/// refused (`None`) when the nonce never completed, when fewer than 16 bytes
/// are left (a stream cut at a chunk boundary), or when they do not open.
pub open spec fn receiver_finish(key: Seq<u8>, st: ReceiverView) -> Option<Seq<u8>> {
    match st.nonce {
        None => None,
        Some(n) => if st.pending.len() < 16 {
            None
        } else {
            stream_open(key, n, st.position as u32, true, st.pending)
        },
    }
}

/// All the plaintext a receiver in state `st` gives out for `pieces` and
/// the end of the input; `None` when it fails.
pub open spec fn receiver_run(key: Seq<u8>, st: ReceiverView, pieces: Seq<Seq<u8>>) -> Option<
    Seq<u8>,
>
    decreases pieces.len(),
{
    if pieces.len() == 0 {
        receiver_finish(key, st)
    } else {
        match receiver_push(key, st, pieces[0]) {
            None => None,
            Some((next, out)) => match receiver_run(key, next, pieces.drop_first()) {
                None => None,
                Some(rest) => Some(out + rest),
            },
        }
    }
}

/// All the plaintext a fresh receiver gives out for `pieces`.
pub open spec fn receive_stream(key: Seq<u8>, pieces: Seq<Seq<u8>>) -> Option<Seq<u8>> {
    receiver_run(key, receiver_start(), pieces)
}

/// The receiving end of an encrypted transfer.
pub struct StreamReceiver {
    key: [u8; 32],
    nonce_buf: Vec<u8>,
    decryptor: Option<StreamDecryptor>,
    data_buf: Vec<u8>,
}

impl StreamReceiver {
    /// The key.
    pub closed spec fn key(&self) -> Seq<u8> {
        self.key@
    }

    /// The receiver's state.
    pub closed spec fn view(&self) -> ReceiverView {
        match self.decryptor {
            None => ReceiverView {
                header: self.nonce_buf@,
                nonce: None,
                position: 0,
                pending: self.data_buf@,
            },
            Some(d) => ReceiverView {
                header: self.nonce_buf@,
                nonce: Some(d.nonce()),
                position: d.position() as nat,
                pending: self.data_buf@,
            },
        }
    }

    /// The fields agree with one another.
    pub closed spec fn wf(&self) -> bool {
        match self.decryptor {
            None => self.nonce_buf@.len() < 7 && self.data_buf@.len() == 0,
            Some(d) => self.nonce_buf@.len() == 0 && d.key() == self.key@,
        }
    }

    /// A receiver for a stream under `key` that has received nothing.
    pub fn new(key: &[u8; 32]) -> (r: Self)
        ensures
            r.wf(),
            r.key() == key@,
            r.view() == receiver_start(),
    {
        StreamReceiver { key: *key, nonce_buf: Vec::new(), decryptor: None, data_buf: Vec::new() }
    }

    /// Takes the next piece of the stream and returns the plaintext of the
    /// chunks it completes.
    pub fn push(&mut self, piece: &[u8]) -> (res: Result<Vec<u8>, CryptoError>)
        requires
            old(self).wf(),
        ensures
            final(self).wf(),
            final(self).key() == old(self).key(),
            match receiver_push(old(self).key(), old(self).view(), piece@) {
                Some((st, out)) => (res matches Ok(p) && p@ == out) && final(self).view() == st,
                None => res == Err::<Vec<u8>, CryptoError>(CryptoError::Decryption),
            },
    {
        if self.decryptor.is_none() {
            let mut extra = slice_to_vec(piece);
            self.nonce_buf.append(&mut extra);
            if self.nonce_buf.len() >= STREAM_NONCE_SIZE {
                let mut nonce: [u8; 7] = [0u8; 7];
                let mut i: usize = 0;
                while i < 7
                    invariant
                        i <= 7,
                        self.nonce_buf@.len() >= 7,
                        forall|k: int| 0 <= k < i ==> nonce@[k] == self.nonce_buf@[k],
                    decreases 7 - i,
                {
                    nonce[i] = self.nonce_buf[i];
                    i = i + 1;
                }
                let rest = slice_subrange(self.nonce_buf.as_slice(), 7, self.nonce_buf.len());
                self.data_buf = slice_to_vec(rest);
                self.nonce_buf = Vec::new();
                self.decryptor = Some(StreamDecryptor::new(&self.key, &nonce));
                assert(nonce@ =~= (old(self).view().header + piece@).take(7));
                assert(self.data_buf@ =~= (old(self).view().header + piece@).skip(7));
            }
            return Ok(Vec::new());
        }
        let mut extra = slice_to_vec(piece);
        self.data_buf.append(&mut extra);
        let mut dec = self.decryptor.take().unwrap();
        let r = drain_into(&mut dec, &self.data_buf);
        match r {
            Err(e) => {
                self.decryptor = Some(dec);
                Err(e)
            },
            Ok((out, consumed)) => {
                let rest = slice_subrange(self.data_buf.as_slice(), consumed, self.data_buf.len());
                self.data_buf = slice_to_vec(rest);
                self.decryptor = Some(dec);
                Ok(out)
            },
        }
    }

    /// Ends the stream and returns the plaintext of its final chunk; fails
    /// unless a final chunk arrived and opens.
    pub fn finish(self) -> (res: Result<Vec<u8>, CryptoError>)
        requires
            self.wf(),
        ensures
            match receiver_finish(self.key(), self.view()) {
                Some(p) => res matches Ok(q) && q@ == p,
                None => res == Err::<Vec<u8>, CryptoError>(CryptoError::FinalDecryption),
            },
    {
        match self.decryptor {
            None => Err(CryptoError::FinalDecryption),
            Some(d) => {
                if self.data_buf.len() < TAG_SIZE {
                    Err(CryptoError::FinalDecryption)
                } else {
                    d.decrypt_last(self.data_buf.as_slice())
                }
            },
        }
    }
}

/// Opens the full chunks at the front of `data` with `dec`; returns their
/// plaintext and how many bytes they took.
fn drain_into(dec: &mut StreamDecryptor, data: &Vec<u8>) -> (res: Result<(Vec<u8>, usize), CryptoError>)
    ensures
        final(dec).key() == old(dec).key(),
        final(dec).nonce() == old(dec).nonce(),
        match drain_chunks(old(dec).key(), old(dec).nonce(), old(dec).position() as nat, data@) {
            Some((out, rest, next)) => (res matches Ok((o, used)) && o@ == out && used <= data@.len()
                && data@.skip(used as int) == rest) && final(dec).position() == next,
            None => res == Err::<(Vec<u8>, usize), CryptoError>(CryptoError::Decryption),
        },
{
    let ghost key = old(dec).key();
    let ghost nonce = old(dec).nonce();
    let ghost start_pos = old(dec).position() as nat;
    let mut out: Vec<u8> = Vec::new();
    let mut used: usize = 0;
    assert(data@.skip(0) =~= data@);
    while data.len() - used >= ENCRYPTED_CHUNK_SIZE
        invariant
            used <= data@.len(),
            key == old(dec).key(),
            nonce == old(dec).nonce(),
            start_pos == old(dec).position() as nat,
            dec.key() == key,
            dec.nonce() == nonce,
            drain_chunks(key, nonce, start_pos, data@) == (match drain_chunks(
                key,
                nonce,
                dec.position() as nat,
                data@.skip(used as int),
            ) {
                Some((q, rest, next)) => Some((out@ + q, rest, next)),
                None => None::<(Seq<u8>, Seq<u8>, nat)>,
            }),
        decreases data@.len() - used,
    {
        let ghost tail = data@.skip(used as int);
        let chunk = slice_subrange(data.as_slice(), used, used + ENCRYPTED_CHUNK_SIZE);
        assert(chunk@ =~= tail.take(65552));
        assert(data@.skip(used + 65552) =~= tail.skip(65552));
        let ghost pos = dec.position() as nat;
        match dec.decrypt_next(chunk) {
            Err(e) => {
                return Err(e);
            },
            Ok(p) => {
                let mut p = p;
                let ghost pv = p@;
                out.append(&mut p);
                used = used + ENCRYPTED_CHUNK_SIZE;
                proof {
                    match drain_chunks(key, nonce, pos + 1, data@.skip(used as int)) {
                        Some((q, rest, next)) => {
                            assert(out@ + q =~= (out@.subrange(0, out@.len() - pv.len())) + (pv
                                + q));
                        },
                        None => {},
                    }
                }
            },
        }
    }
    Ok((out, used))
}

/// The concatenation of `pieces`.
pub open spec fn flatten(pieces: Seq<Seq<u8>>) -> Seq<u8>
    decreases pieces.len(),
{
    if pieces.len() == 0 {
        Seq::empty()
    } else {
        pieces[0] + flatten(pieces.drop_first())
    }
}

/// Whether, with `h` nonce bytes already in, the last of `pieces` is the
/// one that completes the 7-byte nonce.
pub open spec fn nonce_completed_by_last(h: nat, pieces: Seq<Seq<u8>>) -> bool
    decreases pieces.len(),
{
    if pieces.len() == 0 {
        false
    } else if h + pieces[0].len() >= 7 {
        pieces.len() == 1
    } else {
        nonce_completed_by_last(h + pieces[0].len(), pieces.drop_first())
    }
}

/// The number of full chunks of a `len`-byte plaintext that lie within the
/// first `l` bytes of its sealed chunks.
pub open spec fn full_chunks_within(len: nat, l: nat) -> nat
    decreases len,
{
    if len >= 65536 && l >= 65552 {
        1 + full_chunks_within((len - 65536) as nat, (l - 65552) as nat)
    } else {
        0
    }
}

proof fn lemma_chunk_count_step(len: nat)
    requires
        len >= 65536,
    ensures
        ((len - 65536) as nat) / 65536 == len / 65536 - 1,
        len / 65536 >= 1,
{
}

proof fn lemma_chunk_count_skip(len: nat, a: nat)
    requires
        a * 65536 <= len,
    ensures
        ((len - a * 65536) as nat) / 65536 == len / 65536 - a,
{
    assert(((len - a * 65536) as nat) / 65536 == len / 65536 - a) by (nonlinear_arith)
        requires
            a * 65536 <= len,
    {
        let q = len / 65536;
        let r = len % 65536;
        assert(len == q * 65536 + r);
        assert((len - a * 65536) == (q - a) * 65536 + r);
    }
}

/// The sealed chunks are one tag longer per chunk than the plaintext.
proof fn lemma_sealed_chunks_len(key: Seq<u8>, nonce: Seq<u8>, pos: nat, data: Seq<u8>)
    requires
        chunks_sealed_well(key, nonce, pos, data),
    ensures
        sealed_chunks(key, nonce, pos, data).len() == data.len() + (data.len() / 65536 + 1) * 16,
    decreases data.len(),
{
    if data.len() >= 65536 {
        lemma_sealed_chunks_len(key, nonce, pos + 1, data.skip(65536));
        lemma_chunk_count_step(data.len());
    }
}

/// Opening the full chunks within the first `l` bytes of the sealed chunks
/// of `d` gives the plaintext of those chunks and leaves the rest.
proof fn lemma_drain(key: Seq<u8>, nonce: Seq<u8>, j: nat, d: Seq<u8>, l: nat)
    requires
        chunks_sealed_well(key, nonce, j, d),
        j + d.len() / 65536 <= u32::MAX,
        l <= sealed_chunks(key, nonce, j, d).len(),
    ensures
        ({
            let a = full_chunks_within(d.len(), l) as int;
            let t = sealed_chunks(key, nonce, j, d);
            &&& a * 65536 <= d.len()
            &&& a * 65552 <= l
            &&& l - a * 65552 < 65552
            &&& drain_chunks(key, nonce, j, t.take(l as int)) == Some(
                (d.take(a * 65536), t.subrange(a * 65552, l as int), (j + a) as nat),
            )
            &&& t.skip(a * 65552) == sealed_chunks(key, nonce, (j + a) as nat, d.skip(a * 65536))
            &&& chunks_sealed_well(key, nonce, (j + a) as nat, d.skip(a * 65536))
        }),
    decreases d.len(),
{
    let t = sealed_chunks(key, nonce, j, d);
    lemma_sealed_chunks_len(key, nonce, j, d);
    if d.len() >= 65536 && l >= 65552 {
        let c = stream_seal(key, nonce, j as u32, false, d.take(65536));
        let d2 = d.skip(65536);
        let t2 = sealed_chunks(key, nonce, j + 1, d2);
        lemma_chunk_count_step(d.len());
        lemma_sealed_chunks_len(key, nonce, j + 1, d2);
        assert(t == c + t2);
        let tl = t.take(l as int);
        assert(tl.take(65552) =~= c);
        assert(tl.skip(65552) =~= t2.take(l - 65552));
        lemma_drain(key, nonce, j + 1, d2, (l - 65552) as nat);
        let a2 = full_chunks_within(d2.len(), (l - 65552) as nat) as int;
        assert(full_chunks_within(d.len(), l) == a2 + 1);
        assert(d.take(65536) + d2.take(a2 * 65536) =~= d.take((a2 + 1) * 65536));
        assert(t2.subrange(a2 * 65552, l - 65552) =~= t.subrange((a2 + 1) * 65552, l as int));
        assert(t.skip((a2 + 1) * 65552) =~= t2.skip(a2 * 65552));
        assert(d2.skip(a2 * 65536) =~= d.skip((a2 + 1) * 65536));
    } else {
        assert(t.take(l as int).len() < 65552);
        assert(t.subrange(0, l as int) =~= t.take(l as int));
        assert(t.skip(0) =~= t);
        assert(d.skip(0) =~= d);
        assert(d.take(0) =~= Seq::<u8>::empty());
    }
}

/// A receiver that holds the nonce and the first `l` bytes of the sealed
/// chunks of `d` (from position `j`) gives out `d` for the rest of them.
proof fn lemma_run_after_nonce(
    key: Seq<u8>,
    nonce: Seq<u8>,
    j: nat,
    d: Seq<u8>,
    l: nat,
    st: ReceiverView,
    pieces: Seq<Seq<u8>>,
)
    requires
        chunks_sealed_well(key, nonce, j, d),
        j + d.len() / 65536 <= u32::MAX,
        st.nonce == Some(nonce),
        st.position == j,
        l <= sealed_chunks(key, nonce, j, d).len(),
        st.pending == sealed_chunks(key, nonce, j, d).take(l as int),
        flatten(pieces) == sealed_chunks(key, nonce, j, d).skip(l as int),
        pieces.len() == 0 ==> (l < 65552 || d.len() < 65536),
    ensures
        receiver_run(key, st, pieces) == Some(d),
    decreases pieces.len(),
{
    let t = sealed_chunks(key, nonce, j, d);
    lemma_sealed_chunks_len(key, nonce, j, d);
    if pieces.len() == 0 {
        assert(t.skip(l as int).len() == 0);
        assert(st.pending =~= t);
        if d.len() >= 65536 {
            lemma_chunk_count_step(d.len());
            assert(false);
        }
    } else {
        let x = pieces[0];
        let rest = pieces.drop_first();
        let l2 = l + x.len();
        assert(t.skip(l as int) == x + flatten(rest));
        assert(x =~= t.skip(l as int).take(x.len() as int));
        assert((x + flatten(rest)).skip(x.len() as int) =~= flatten(rest));
        assert(t.skip(l as int).skip(x.len() as int) =~= t.skip(l2 as int));
        assert(flatten(rest) =~= t.skip(l2 as int));
        assert(st.pending + x =~= t.take(l2 as int));
        lemma_drain(key, nonce, j, d, l2);
        let a = full_chunks_within(d.len(), l2) as int;
        let t2 = sealed_chunks(key, nonce, (j + a) as nat, d.skip(a * 65536));
        lemma_chunk_count_skip(d.len(), a as nat);
        assert(t.subrange(a * 65552, l2 as int) =~= t2.take(l2 - a * 65552));
        assert(t.skip(l2 as int) =~= t2.skip(l2 - a * 65552));
        let st2 = ReceiverView {
            pending: t.subrange(a * 65552, l2 as int),
            position: (j + a) as nat,
            ..st
        };
        lemma_run_after_nonce(
            key,
            nonce,
            (j + a) as nat,
            d.skip(a * 65536),
            (l2 - a * 65552) as nat,
            st2,
            rest,
        );
        assert(d.take(a * 65536) + d.skip(a * 65536) =~= d);
    }
}

/// A receiver that has the first `h` bytes of the stream of `d`, all within
/// the nonce, gives out `d` for the rest of the stream.
proof fn lemma_run_before_nonce(
    key: Seq<u8>,
    nonce: Seq<u8>,
    d: Seq<u8>,
    h: nat,
    st: ReceiverView,
    pieces: Seq<Seq<u8>>,
)
    requires
        nonce.len() == 7,
        chunks_sealed_well(key, nonce, 0, d),
        d.len() / 65536 <= u32::MAX,
        h < 7,
        st == (ReceiverView {
            header: sealed_stream(key, nonce, d).take(h as int),
            nonce: None,
            position: 0,
            pending: Seq::empty(),
        }),
        flatten(pieces) == sealed_stream(key, nonce, d).skip(h as int),
        !nonce_completed_by_last(h, pieces) || d.len() < 65536,
    ensures
        receiver_run(key, st, pieces) == Some(d),
    decreases pieces.len(),
{
    let s = sealed_stream(key, nonce, d);
    let t = sealed_chunks(key, nonce, 0, d);
    lemma_sealed_chunks_len(key, nonce, 0, d);
    assert(s.len() >= 23);
    if pieces.len() == 0 {
        assert(s.skip(h as int).len() > 0);
        assert(false);
    } else {
        let x = pieces[0];
        let rest = pieces.drop_first();
        let h2 = h + x.len();
        assert(s.skip(h as int) == x + flatten(rest));
        assert(x =~= s.skip(h as int).take(x.len() as int));
        assert((x + flatten(rest)).skip(x.len() as int) =~= flatten(rest));
        assert(s.skip(h as int).skip(x.len() as int) =~= s.skip(h2 as int));
        assert(flatten(rest) =~= s.skip(h2 as int));
        let hh = st.header + x;
        assert(hh =~= s.take(h2 as int));
        if h2 < 7 {
            lemma_run_before_nonce(
                key,
                nonce,
                d,
                h2,
                ReceiverView { header: hh, ..st },
                rest,
            );
        } else {
            assert(hh.take(7) =~= nonce);
            assert(hh.skip(7) =~= t.take(h2 - 7));
            assert(t.skip(h2 - 7) =~= s.skip(h2 as int));
            let st2 = ReceiverView {
                header: Seq::empty(),
                nonce: Some(hh.take(7)),
                position: 0,
                pending: hh.skip(7),
            };
            lemma_run_after_nonce(key, nonce, 0, d, (h2 - 7) as nat, st2, rest);
            assert(Seq::<u8>::empty() + d =~= d);
        }
    }
}

/// Whatever pieces the network cuts the sealed stream of `data` into, a
/// receiver under the same key gives `data` back.  The one exception is
/// left out: when the piece that completes the nonce is also the last piece
/// and `data` spans more than one chunk, the receiver opens all chunks at
/// once as the final chunk.
pub proof fn lemma_receive_sealed_stream(
    key: Seq<u8>,
    nonce: Seq<u8>,
    data: Seq<u8>,
    pieces: Seq<Seq<u8>>,
)
    requires
        nonce.len() == 7,
        data.len() / 65536 <= u32::MAX,
        chunks_sealed_well(key, nonce, 0, data),
        flatten(pieces) == sealed_stream(key, nonce, data),
        !nonce_completed_by_last(0, pieces) || data.len() < 65536,
    ensures
        receive_stream(key, pieces) == Some(data),
{
    let s = sealed_stream(key, nonce, data);
    assert(s.take(0) =~= Seq::<u8>::empty());
    assert(s.skip(0) =~= s);
    lemma_run_before_nonce(key, nonce, data, 0, receiver_start(), pieces);
}

/// The length that a host announces for an encrypted download is the
/// length of the stream it sends.
pub proof fn lemma_announced_length(key: Seq<u8>, nonce: Seq<u8>, data: Seq<u8>, name: Seq<char>)
    requires
        nonce.len() == 7,
        data.len() <= u64::MAX,
        chunks_sealed_well(key, nonce, 0, data),
    ensures
        download_header_list(name, data.len() as u64, true)[1] == ("content-length"@, decimal(
            sealed_stream(key, nonce, data).len(),
        )),
{
    lemma_sealed_chunks_len(key, nonce, 0, data);
    assert(sealed_stream(key, nonce, data).len() == spec_encrypted_size(data.len()));
}

/// The sealed chunks of `d` are longer than its first `a` full chunks.
proof fn lemma_sealed_chunks_cover(key: Seq<u8>, nonce: Seq<u8>, j: nat, d: Seq<u8>, a: nat)
    requires
        chunks_sealed_well(key, nonce, j, d),
        a as int * 65536 <= d.len(),
    ensures
        a as int * 65552 + 16 <= sealed_chunks(key, nonce, j, d).len(),
{
    lemma_sealed_chunks_len(key, nonce, j, d);
    lemma_chunk_count_skip(d.len(), a);
}

/// A receiver whose input ends before the nonce is complete refuses it.
proof fn lemma_run_short(key: Seq<u8>, st: ReceiverView, pieces: Seq<Seq<u8>>)
    requires
        st.nonce is None,
        st.header.len() + flatten(pieces).len() < 7,
    ensures
        receiver_run(key, st, pieces) is None,
    decreases pieces.len(),
{
    if pieces.len() > 0 {
        let h = st.header + pieces[0];
        lemma_run_short(key, ReceiverView { header: h, ..st }, pieces.drop_first());
    }
}

/// A receiver that holds the nonce and the first `l` bytes of the sealed
/// chunks of `d`, and then gets the rest of its first `a` full chunks and
/// nothing more, refuses the input.
proof fn lemma_run_truncated_after_nonce(
    key: Seq<u8>,
    nonce: Seq<u8>,
    j: nat,
    d: Seq<u8>,
    l: nat,
    a: nat,
    st: ReceiverView,
    pieces: Seq<Seq<u8>>,
)
    requires
        chunks_sealed_well(key, nonce, j, d),
        j + d.len() / 65536 <= u32::MAX,
        st.nonce == Some(nonce),
        st.position == j,
        a as int * 65536 <= d.len(),
        l <= a as int * 65552,
        st.pending == sealed_chunks(key, nonce, j, d).take(l as int),
        flatten(pieces) == sealed_chunks(key, nonce, j, d).subrange(l as int, a as int * 65552),
        pieces.len() == 0 ==> l < 65552,
    ensures
        receiver_run(key, st, pieces) is None,
    decreases pieces.len(),
{
    let t = sealed_chunks(key, nonce, j, d);
    lemma_sealed_chunks_cover(key, nonce, j, d, a);
    if pieces.len() == 0 {
        assert(l == a as int * 65552);
        assert(st.pending.len() == 0);
    } else {
        let x = pieces[0];
        let rest = pieces.drop_first();
        let l2 = l + x.len();
        assert(t.subrange(l as int, a as int * 65552) == x + flatten(rest));
        assert(l2 <= a as int * 65552);
        assert(x =~= t.subrange(l as int, l2 as int));
        assert((x + flatten(rest)).skip(x.len() as int) =~= flatten(rest));
        assert(t.subrange(l as int, a as int * 65552).skip(x.len() as int) =~= t.subrange(
            l2 as int,
            a as int * 65552,
        ));
        assert(st.pending + x =~= t.take(l2 as int));
        lemma_drain(key, nonce, j, d, l2);
        let b = full_chunks_within(d.len(), l2);
        assert(b <= a) by (nonlinear_arith)
            requires
                b as int * 65552 <= l2,
                l2 <= a as int * 65552,
        ;
        let d2 = d.skip(b as int * 65536);
        let t2 = sealed_chunks(key, nonce, j + b, d2);
        lemma_chunk_count_skip(d.len(), b);
        assert(t.subrange(b as int * 65552, l2 as int) =~= t2.take(l2 - b as int * 65552));
        assert(t.subrange(l2 as int, a as int * 65552) =~= t2.subrange(
            l2 - b as int * 65552,
            (a - b) as int * 65552,
        ));
        let st2 = ReceiverView {
            pending: t.subrange(b as int * 65552, l2 as int),
            position: j + b,
            ..st
        };
        lemma_run_truncated_after_nonce(
            key,
            nonce,
            j + b,
            d2,
            (l2 - b as int * 65552) as nat,
            (a - b) as nat,
            st2,
            rest,
        );
    }
}

/// A receiver that has the first `h` bytes of the stream of `d`, all within
/// the nonce, and then gets the rest of the nonce and of the first `a` full
/// chunks and nothing more, refuses the input.
proof fn lemma_run_truncated_before_nonce(
    key: Seq<u8>,
    nonce: Seq<u8>,
    d: Seq<u8>,
    a: nat,
    h: nat,
    st: ReceiverView,
    pieces: Seq<Seq<u8>>,
)
    requires
        nonce.len() == 7,
        chunks_sealed_well(key, nonce, 0, d),
        d.len() / 65536 <= u32::MAX,
        a as int * 65536 <= d.len(),
        h < 7,
        st == (ReceiverView {
            header: sealed_stream(key, nonce, d).take(h as int),
            nonce: None,
            position: 0,
            pending: Seq::empty(),
        }),
        flatten(pieces) == sealed_stream(key, nonce, d).subrange(h as int, 7 + a as int * 65552),
        !nonce_completed_by_last(h, pieces) || a == 0,
    ensures
        receiver_run(key, st, pieces) is None,
    decreases pieces.len(),
{
    let s = sealed_stream(key, nonce, d);
    let t = sealed_chunks(key, nonce, 0, d);
    lemma_sealed_chunks_cover(key, nonce, 0, d, a);
    if pieces.len() == 0 {
        assert(s.subrange(h as int, 7 + a as int * 65552).len() > 0);
        assert(false);
    } else {
        let x = pieces[0];
        let rest = pieces.drop_first();
        let h2 = h + x.len();
        assert(s.subrange(h as int, 7 + a as int * 65552) == x + flatten(rest));
        assert(h2 <= 7 + a as int * 65552);
        assert(x =~= s.subrange(h as int, h2 as int));
        assert((x + flatten(rest)).skip(x.len() as int) =~= flatten(rest));
        assert(s.subrange(h as int, 7 + a as int * 65552).skip(x.len() as int) =~= s.subrange(
            h2 as int,
            7 + a as int * 65552,
        ));
        let hh = st.header + x;
        assert(hh =~= s.take(h2 as int));
        if h2 < 7 {
            lemma_run_truncated_before_nonce(
                key,
                nonce,
                d,
                a,
                h2,
                ReceiverView { header: hh, ..st },
                rest,
            );
        } else {
            assert(hh.take(7) =~= nonce);
            assert(hh.skip(7) =~= t.take(h2 - 7));
            assert(s.subrange(h2 as int, 7 + a as int * 65552) =~= t.subrange(h2 - 7, a as int * 65552));
            let st2 = ReceiverView {
                header: Seq::empty(),
                nonce: Some(hh.take(7)),
                position: 0,
                pending: hh.skip(7),
            };
            lemma_run_truncated_after_nonce(key, nonce, 0, d, (h2 - 7) as nat, a, st2, rest);
        }
    }
}

/// Input that ends before the 7-byte nonce is complete is refused.
pub proof fn lemma_short_stream_refused(key: Seq<u8>, pieces: Seq<Seq<u8>>)
    requires
        flatten(pieces).len() < 7,
    ensures
        receive_stream(key, pieces) is None,
{
    lemma_run_short(key, receiver_start(), pieces);
}

/// A stream of `data` cut after its nonce and its first `a` full chunks,
/// so that the final chunk is missing, is refused however the network cuts
/// it into pieces.  As for the whole stream, the case where the piece that
/// completes the nonce is also the last one and carries full chunks is
/// left out: the receiver then opens all those chunks as one final chunk.
pub proof fn lemma_truncated_stream_refused(
    key: Seq<u8>,
    nonce: Seq<u8>,
    data: Seq<u8>,
    a: nat,
    pieces: Seq<Seq<u8>>,
)
    requires
        nonce.len() == 7,
        data.len() / 65536 <= u32::MAX,
        chunks_sealed_well(key, nonce, 0, data),
        a <= data.len() / 65536,
        flatten(pieces) == sealed_stream(key, nonce, data).take(7 + a as int * 65552),
        !nonce_completed_by_last(0, pieces) || a == 0,
    ensures
        receive_stream(key, pieces) is None,
{
    let s = sealed_stream(key, nonce, data);
    assert(a as int * 65536 <= data.len()) by (nonlinear_arith)
        requires
            a <= data.len() / 65536,
    {
        assert(data.len() == (data.len() / 65536) * 65536 + data.len() % 65536);
    }
    assert(s.take(0) =~= Seq::<u8>::empty());
    assert(s.take(7 + a as int * 65552) =~= s.subrange(0, 7 + a as int * 65552));
    lemma_run_truncated_before_nonce(key, nonce, data, a, 0, receiver_start(), pieces);
}

} // verus!
