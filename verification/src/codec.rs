//! The byte framing under which documents are kept in the durable store:
//! a fixed little-endian layout with length-prefixed UTF-8 strings.
//!
//! [`enc_doc`] and [`dec_doc`] give the format's meaning at the
//! specification level; [`Document::to_bytes`] and [`Document::from_bytes`]
//! are the executable pair, and [`lemma_doc_round_trip`] proves that
//! decoding an encoding gives the document back.

use vstd::prelude::*;
use vstd::bytes::{spec_u64_to_le_bytes, spec_u64_from_le_bytes, lemma_auto_spec_u64_to_from_le_bytes, u64_to_le_bytes, u64_from_le_bytes};
use vstd::utf8::{encode_utf8, decode_utf8, valid_utf8, encode_utf8_valid_utf8, encode_utf8_decode_utf8};
use vstd::slice::{slice_subrange, slice_to_vec, slice_index_get};
use vstd::string::StrSliceExecFns;
use crate::types::{Document, DocumentMetadata, DocumentVersion, MetadataView, VersionView, DocView};

verus! {

/// A string whose UTF-8 form fits under the format's 64-bit length prefix.
/// Every string held in an executable `String` satisfies this.
pub open spec fn str_fits(s: Seq<char>) -> bool {
    encode_utf8(s).len() <= u64::MAX
}

pub open spec fn meta_fits(m: MetadataView) -> bool {
    &&& str_fits(m.updated_by)
    &&& str_fits(m.change_summary)
}

pub open spec fn version_fits(v: VersionView) -> bool {
    &&& str_fits(v.title)
    &&& str_fits(v.description)
    &&& str_fits(v.file_url)
    &&& meta_fits(v.metadata)
}

/// The encoding's size limits: every field's UTF-8 form and the history's
/// length fit under a 64-bit prefix. Holds of every executable `Document`.
pub open spec fn doc_fits(d: DocView) -> bool {
    &&& str_fits(d.title)
    &&& str_fits(d.description)
    &&& str_fits(d.file_url)
    &&& d.history.len() <= u64::MAX
    &&& forall|i: int| 0 <= i < d.history.len() ==> version_fits(#[trigger] d.history[i])
}

pub open spec fn enc_u64(x: u64) -> Seq<u8> {
    spec_u64_to_le_bytes(x)
}

/// A string is framed as the byte length of its UTF-8 form, then the form.
pub open spec fn enc_str(s: Seq<char>) -> Seq<u8> {
    enc_u64(encode_utf8(s).len() as u64) + encode_utf8(s)
}

pub open spec fn enc_bool(b: bool) -> Seq<u8> {
    seq![if b { 1u8 } else { 0u8 }]
}

/// An optional timestamp: a tag byte, then the value when present.
pub open spec fn enc_opt_u64(o: Option<u64>) -> Seq<u8> {
    match o {
        None => seq![0u8],
        Some(x) => seq![1u8] + enc_u64(x),
    }
}

pub open spec fn enc_meta(m: MetadataView) -> Seq<u8> {
    enc_str(m.updated_by) + enc_str(m.change_summary)
}

pub open spec fn enc_version(v: VersionView) -> Seq<u8> {
    enc_u64(v.version) + enc_str(v.title) + enc_str(v.description) + enc_str(v.file_url)
        + enc_meta(v.metadata) + enc_u64(v.updated_at)
}

pub open spec fn enc_history(h: Seq<VersionView>) -> Seq<u8>
    decreases h.len(),
{
    if h.len() == 0 {
        Seq::empty()
    } else {
        enc_version(h[0]) + enc_history(h.drop_first())
    }
}

/// The whole record: scalar fields first, then the history behind its count.
pub open spec fn enc_doc(d: DocView) -> Seq<u8> {
    enc_u64(d.id) + enc_str(d.title) + enc_str(d.description) + enc_str(d.file_url)
        + enc_u64(d.version) + enc_u64(d.created_at) + enc_opt_u64(d.updated_at)
        + enc_bool(d.is_deleted) + enc_u64(d.history.len() as u64) + enc_history(d.history)
}

/// Reads a 64-bit little-endian integer off the front of `b`.
pub open spec fn dec_u64(b: Seq<u8>) -> Option<(u64, Seq<u8>)> {
    if b.len() >= 8 {
        Some((spec_u64_from_le_bytes(b.take(8)), b.skip(8)))
    } else {
        None
    }
}

/// Reads a length-prefixed UTF-8 string off the front of `b`.
pub open spec fn dec_str(b: Seq<u8>) -> Option<(Seq<char>, Seq<u8>)> {
    match dec_u64(b) {
        Some((n, r)) => if n <= r.len() && valid_utf8(r.take(n as int)) {
            Some((decode_utf8(r.take(n as int)), r.skip(n as int)))
        } else {
            None
        },
        None => None,
    }
}

pub open spec fn dec_bool(b: Seq<u8>) -> Option<(bool, Seq<u8>)> {
    if b.len() >= 1 && (b[0] == 0u8 || b[0] == 1u8) {
        Some((b[0] == 1u8, b.skip(1)))
    } else {
        None
    }
}

pub open spec fn dec_opt_u64(b: Seq<u8>) -> Option<(Option<u64>, Seq<u8>)> {
    if b.len() >= 1 && b[0] == 0u8 {
        Some((None, b.skip(1)))
    } else if b.len() >= 1 && b[0] == 1u8 {
        match dec_u64(b.skip(1)) {
            Some((x, r)) => Some((Some(x), r)),
            None => None,
        }
    } else {
        None
    }
}

pub open spec fn dec_meta(b: Seq<u8>) -> Option<(MetadataView, Seq<u8>)> {
    match dec_str(b) {
        Some((ub, r1)) => match dec_str(r1) {
            Some((cs, r2)) => Some((MetadataView { updated_by: ub, change_summary: cs }, r2)),
            None => None,
        },
        None => None,
    }
}

pub open spec fn dec_version(b: Seq<u8>) -> Option<(VersionView, Seq<u8>)> {
    match dec_u64(b) {
        Some((ver, r1)) => match dec_str(r1) {
            Some((title, r2)) => match dec_str(r2) {
                Some((description, r3)) => match dec_str(r3) {
                    Some((file_url, r4)) => match dec_meta(r4) {
                        Some((metadata, r5)) => match dec_u64(r5) {
                            Some((at, r6)) => Some((
                                VersionView {
                                    version: ver,
                                    title: title,
                                    description: description,
                                    file_url: file_url,
                                    metadata: metadata,
                                    updated_at: at,
                                },
                                r6,
                            )),
                            None => None,
                        },
                        None => None,
                    },
                    None => None,
                },
                None => None,
            },
            None => None,
        },
        None => None,
    }
}

pub open spec fn dec_history(b: Seq<u8>, n: nat) -> Option<(Seq<VersionView>, Seq<u8>)>
    decreases n,
{
    if n == 0 {
        Some((Seq::empty(), b))
    } else {
        match dec_version(b) {
            Some((v, r)) => match dec_history(r, (n - 1) as nat) {
                Some((t, r2)) => Some((seq![v] + t, r2)),
                None => None,
            },
            None => None,
        }
    }
}

/// The meaning of a stored byte string: the document it frames, if it
/// frames one exactly (no trailing bytes).
pub open spec fn dec_doc(b: Seq<u8>) -> Option<DocView> {
    match dec_u64(b) {
        Some((id, r1)) => match dec_str(r1) {
            Some((title, r2)) => match dec_str(r2) {
                Some((description, r3)) => match dec_str(r3) {
                    Some((file_url, r4)) => match dec_u64(r4) {
                        Some((version, r5)) => match dec_u64(r5) {
                            Some((created_at, r6)) => match dec_opt_u64(r6) {
                                Some((updated_at, r7)) => match dec_bool(r7) {
                                    Some((is_deleted, r8)) => match dec_u64(r8) {
                                        Some((count, r9)) => match dec_history(r9, count as nat) {
                                            Some((history, r10)) => if r10.len() == 0 {
                                                Some(DocView {
                                                    id: id,
                                                    title: title,
                                                    description: description,
                                                    file_url: file_url,
                                                    version: version,
                                                    created_at: created_at,
                                                    updated_at: updated_at,
                                                    is_deleted: is_deleted,
                                                    history: history,
                                                })
                                            } else {
                                                None
                                            },
                                            None => None,
                                        },
                                        None => None,
                                    },
                                    None => None,
                                },
                                None => None,
                            },
                            None => None,
                        },
                        None => None,
                    },
                    None => None,
                },
                None => None,
            },
            None => None,
        },
        None => None,
    }
}

proof fn lemma_dec_u64(x: u64, rest: Seq<u8>)
    ensures
        dec_u64(enc_u64(x) + rest) == Some((x, rest)),
{
    lemma_auto_spec_u64_to_from_le_bytes();
    let b = enc_u64(x) + rest;
    assert(b.take(8) =~= enc_u64(x));
    assert(b.skip(8) =~= rest);
}

proof fn lemma_dec_str(s: Seq<char>, rest: Seq<u8>)
    requires
        str_fits(s),
    ensures
        dec_str(enc_str(s) + rest) == Some((s, rest)),
{
    let bs = encode_utf8(s);
    let n = bs.len() as u64;
    assert(enc_str(s) + rest =~= enc_u64(n) + (bs + rest));
    lemma_dec_u64(n, bs + rest);
    assert((bs + rest).take(n as int) =~= bs);
    encode_utf8_valid_utf8(s);
    encode_utf8_decode_utf8(s);
    assert((bs + rest).skip(n as int) =~= rest);
}

proof fn lemma_dec_bool(x: bool, rest: Seq<u8>)
    ensures
        dec_bool(enc_bool(x) + rest) == Some((x, rest)),
{
    let b = enc_bool(x) + rest;
    assert(b.skip(1) =~= rest);
}

proof fn lemma_dec_opt_u64(o: Option<u64>, rest: Seq<u8>)
    ensures
        dec_opt_u64(enc_opt_u64(o) + rest) == Some((o, rest)),
{
    let b = enc_opt_u64(o) + rest;
    match o {
        None => {
            assert(b.skip(1) =~= rest);
        },
        Some(x) => {
            assert(b.skip(1) =~= enc_u64(x) + rest);
            lemma_dec_u64(x, rest);
        },
    }
}

proof fn lemma_dec_meta(m: MetadataView, rest: Seq<u8>)
    requires
        meta_fits(m),
    ensures
        dec_meta(enc_meta(m) + rest) == Some((m, rest)),
{
    assert(enc_meta(m) + rest =~= enc_str(m.updated_by) + (enc_str(m.change_summary) + rest));
    lemma_dec_str(m.updated_by, enc_str(m.change_summary) + rest);
    lemma_dec_str(m.change_summary, rest);
    assert(MetadataView { updated_by: m.updated_by, change_summary: m.change_summary } =~= m);
}

proof fn lemma_dec_version(v: VersionView, rest: Seq<u8>)
    requires
        version_fits(v),
    ensures
        dec_version(enc_version(v) + rest) == Some((v, rest)),
{
    let t5 = enc_u64(v.updated_at) + rest;
    let t4 = enc_meta(v.metadata) + t5;
    let t3 = enc_str(v.file_url) + t4;
    let t2 = enc_str(v.description) + t3;
    let t1 = enc_str(v.title) + t2;
    assert(enc_version(v) + rest =~= enc_u64(v.version) + t1);
    lemma_dec_u64(v.version, t1);
    lemma_dec_str(v.title, t2);
    lemma_dec_str(v.description, t3);
    lemma_dec_str(v.file_url, t4);
    lemma_dec_meta(v.metadata, t5);
    lemma_dec_u64(v.updated_at, rest);
    assert(VersionView {
        version: v.version,
        title: v.title,
        description: v.description,
        file_url: v.file_url,
        metadata: v.metadata,
        updated_at: v.updated_at,
    } =~= v);
}

#[verifier::spinoff_prover]
#[verifier::rlimit(60)]
proof fn lemma_dec_history(h: Seq<VersionView>, rest: Seq<u8>)
    requires
        forall|i: int| 0 <= i < h.len() ==> version_fits(#[trigger] h[i]),
    ensures
        dec_history(enc_history(h) + rest, h.len()) == Some((h, rest)),
    decreases h.len(),
{
    if h.len() == 0 {
        assert(enc_history(h) + rest =~= rest);
    } else {
        let tail = h.drop_first();
        assert(enc_history(h) + rest =~= enc_version(h[0]) + (enc_history(tail) + rest));
        lemma_dec_version(h[0], enc_history(tail) + rest);
        assert(forall|i: int| 0 <= i < tail.len() ==> version_fits(#[trigger] tail[i]));
        lemma_dec_history(tail, rest);
        assert(seq![h[0]] + tail =~= h);
    }
}

/// Decoding an encoding gives the document back: the codec's round trip.
#[verifier::spinoff_prover]
proof fn lemma_dec_doc_compose(
    b: Seq<u8>,
    d: DocView,
    t1: Seq<u8>,
    t2: Seq<u8>,
    t3: Seq<u8>,
    t4: Seq<u8>,
    t5: Seq<u8>,
    t6: Seq<u8>,
    t7: Seq<u8>,
    t8: Seq<u8>,
    t9: Seq<u8>,
)
    requires
        d.history.len() <= u64::MAX,
        dec_u64(b) == Some((d.id, t1)),
        dec_str(t1) == Some((d.title, t2)),
        dec_str(t2) == Some((d.description, t3)),
        dec_str(t3) == Some((d.file_url, t4)),
        dec_u64(t4) == Some((d.version, t5)),
        dec_u64(t5) == Some((d.created_at, t6)),
        dec_opt_u64(t6) == Some((d.updated_at, t7)),
        dec_bool(t7) == Some((d.is_deleted, t8)),
        dec_u64(t8) == Some((d.history.len() as u64, t9)),
        dec_history(t9, d.history.len()) == Some((d.history, Seq::<u8>::empty())),
    ensures
        dec_doc(b) == Some(d),
{
    assert(DocView {
        id: d.id,
        title: d.title,
        description: d.description,
        file_url: d.file_url,
        version: d.version,
        created_at: d.created_at,
        updated_at: d.updated_at,
        is_deleted: d.is_deleted,
        history: d.history,
    } =~= d);
}

/// Decoding an encoding gives the document back: the codec's round trip.
#[verifier::spinoff_prover]
#[verifier::rlimit(100)]
pub proof fn lemma_doc_round_trip(d: DocView)
    requires
        doc_fits(d),
    ensures
        dec_doc(enc_doc(d)) == Some(d),
{
    let n = d.history.len() as u64;
    let t9 = enc_history(d.history);
    let t8 = enc_u64(n) + t9;
    let t7 = enc_bool(d.is_deleted) + t8;
    let t6 = enc_opt_u64(d.updated_at) + t7;
    let t5 = enc_u64(d.created_at) + t6;
    let t4 = enc_u64(d.version) + t5;
    let t3 = enc_str(d.file_url) + t4;
    let t2 = enc_str(d.description) + t3;
    let t1 = enc_str(d.title) + t2;
    let b = enc_doc(d);
    assert(b =~= enc_u64(d.id) + t1);
    lemma_dec_u64(d.id, t1);
    lemma_dec_str(d.title, t2);
    lemma_dec_str(d.description, t3);
    lemma_dec_str(d.file_url, t4);
    lemma_dec_u64(d.version, t5);
    lemma_dec_u64(d.created_at, t6);
    lemma_dec_opt_u64(d.updated_at, t7);
    lemma_dec_bool(d.is_deleted, t8);
    lemma_dec_u64(n, t9);
    assert(t9 =~= enc_history(d.history) + Seq::<u8>::empty());
    lemma_dec_history(d.history, Seq::empty());
    lemma_dec_doc_compose(
        b,
        d,
        t1,
        t2,
        t3,
        t4,
        t5,
        t6,
        t7,
        t8,
        t9,
    );
}


proof fn lemma_enc_history_push(s: Seq<VersionView>, v: VersionView)
    ensures
        enc_history(s.push(v)) == enc_history(s) + enc_version(v),
    decreases s.len(),
{
    reveal_with_fuel(enc_history, 3);
    if s.len() == 0 {
        assert(s.push(v).drop_first() =~= Seq::<VersionView>::empty());
        assert(s.push(v)[0] == v);
        assert(enc_history(s.push(v)) == enc_version(v) + enc_history(
            Seq::<VersionView>::empty(),
        ));
        assert(enc_version(v) + Seq::<u8>::empty() =~= enc_version(v));
        assert(Seq::<u8>::empty() + enc_version(v) =~= enc_version(v));
    } else {
        assert(s.push(v).drop_first() =~= s.drop_first().push(v));
        assert(s.push(v)[0] == s[0]);
        lemma_enc_history_push(s.drop_first(), v);
        assert(enc_history(s.push(v)) == enc_version(s[0]) + enc_history(s.drop_first().push(v)));
        assert(enc_version(s[0]) + (enc_history(s.drop_first()) + enc_version(v)) =~= (
        enc_version(s[0]) + enc_history(s.drop_first())) + enc_version(v));
    }
}

/// Relies on `String::from_utf8`: it returns `Ok` exactly when the bytes
/// are valid UTF-8, and the returned string's UTF-8 form is those bytes.
#[verifier::external_body]
fn string_from_utf8(bytes: Vec<u8>) -> (r: Option<String>)
    ensures
        match r {
            Some(s) => encode_utf8(s@) == bytes@,
            None => !valid_utf8(bytes@),
        },
{
    String::from_utf8(bytes).ok()
}

fn push_u64(out: &mut Vec<u8>, x: u64)
    ensures
        final(out)@ == old(out)@ + enc_u64(x),
{
    let mut b = u64_to_le_bytes(x);
    out.append(&mut b);
}

fn push_str(out: &mut Vec<u8>, s: &String)
    ensures
        final(out)@ == old(out)@ + enc_str(s@),
        str_fits(s@),
{
    let mut b = s.as_str().as_bytes_vec();
    let n = b.len();
    push_u64(out, n as u64);
    out.append(&mut b);
    proof {
        assert(out@ =~= old(out)@ + enc_str(s@));
    }
}

fn push_bool(out: &mut Vec<u8>, x: bool)
    ensures
        final(out)@ == old(out)@ + enc_bool(x),
{
    out.push(if x { 1u8 } else { 0u8 });
    proof {
        assert(out@ =~= old(out)@ + enc_bool(x));
    }
}

fn push_opt_u64(out: &mut Vec<u8>, o: &Option<u64>)
    ensures
        final(out)@ == old(out)@ + enc_opt_u64(*o),
{
    match o {
        None => {
            out.push(0u8);
            proof {
                assert(out@ =~= old(out)@ + enc_opt_u64(None::<u64>));
            }
        },
        Some(x) => {
            out.push(1u8);
            push_u64(out, *x);
            proof {
                assert(out@ =~= old(out)@ + enc_opt_u64(Some(*x)));
            }
        },
    }
}

fn push_meta(out: &mut Vec<u8>, m: &DocumentMetadata)
    ensures
        final(out)@ == old(out)@ + enc_meta(m@),
        meta_fits(m@),
{
    push_str(out, &m.updated_by);
    push_str(out, &m.change_summary);
    proof {
        assert(out@ =~= old(out)@ + enc_meta(m@));
    }
}

fn push_version(out: &mut Vec<u8>, v: &DocumentVersion)
    ensures
        final(out)@ == old(out)@ + enc_version(v@),
        version_fits(v@),
{
    push_u64(out, v.version);
    push_str(out, &v.title);
    push_str(out, &v.description);
    push_str(out, &v.file_url);
    push_meta(out, &v.metadata);
    push_u64(out, v.updated_at);
    proof {
        assert(out@ =~= old(out)@ + enc_version(v@));
    }
}

impl Document {
    /// Frames the document as bytes under the codec's layout.
    pub fn to_bytes(&self) -> (r: Vec<u8>)
        ensures
            r@ == enc_doc(self@),
            doc_fits(self@),
    {
        let mut out: Vec<u8> = Vec::new();
        push_u64(&mut out, self.id);
        push_str(&mut out, &self.title);
        push_str(&mut out, &self.description);
        push_str(&mut out, &self.file_url);
        push_u64(&mut out, self.version);
        push_u64(&mut out, self.created_at);
        push_opt_u64(&mut out, &self.updated_at);
        push_bool(&mut out, self.is_deleted);
        let count = self.history.len();
        push_u64(&mut out, count as u64);
        let ghost base = out@;
        let mut i: usize = 0;
        while i < count
            invariant
                count == self.history@.len(),
                0 <= i <= count,
                out@ == base + enc_history(self.history.deep_view().take(i as int)),
                forall|j: int| 0 <= j < i ==> version_fits(#[trigger] self.history.deep_view()[j]),
            decreases count - i,
        {
            push_version(&mut out, &self.history[i]);
            proof {
                let h = self.history.deep_view();
                assert(h[i as int] == self.history@[i as int]@);
                assert(h.take(i as int).push(h[i as int]) =~= h.take(i as int + 1));
                lemma_enc_history_push(h.take(i as int), h[i as int]);
            }
            i += 1;
        }
        proof {
            let h = self.history.deep_view();
            assert(h.take(count as int) =~= h);
            assert(out@ =~= enc_doc(self@));
        }
        out
    }
}

fn read_u64(b: &[u8], pos: usize) -> (r: Option<(u64, usize)>)
    requires
        pos <= b@.len(),
    ensures
        match r {
            Some(t) => {
                &&& dec_u64(b@.skip(pos as int)) == Some((t.0, b@.skip(t.1 as int)))
                &&& pos <= t.1 <= b@.len()
            },
            None => dec_u64(b@.skip(pos as int)) is None,
        },
{
    if b.len() - pos >= 8 {
        let s = slice_subrange(b, pos, pos + 8);
        let x = u64_from_le_bytes(s);
        proof {
            assert(b@.skip(pos as int).take(8) =~= b@.subrange(pos as int, pos as int + 8));
            assert(b@.skip(pos as int).skip(8) =~= b@.skip(pos as int + 8));
        }
        Some((x, pos + 8))
    } else {
        None
    }
}

fn read_str(b: &[u8], pos: usize) -> (r: Option<(String, usize)>)
    requires
        pos <= b@.len(),
    ensures
        match r {
            Some(t) => {
                &&& dec_str(b@.skip(pos as int)) == Some((t.0@, b@.skip(t.1 as int)))
                &&& pos <= t.1 <= b@.len()
            },
            None => dec_str(b@.skip(pos as int)) is None,
        },
{
    match read_u64(b, pos) {
        None => None,
        Some((n, p)) => {
            if n <= (b.len() - p) as u64 {
                let m = n as usize;
                let chunk = slice_subrange(b, p, p + m);
                proof {
                    assert(b@.skip(p as int).take(n as int) =~= b@.subrange(
                        p as int,
                        p as int + m as int,
                    ));
                }
                let v = slice_to_vec(chunk);
                match string_from_utf8(v) {
                    Some(s) => {
                        proof {
                            encode_utf8_valid_utf8(s@);
                            encode_utf8_decode_utf8(s@);
                            assert(b@.skip(p as int).skip(n as int) =~= b@.skip((p + m) as int));
                        }
                        Some((s, p + m))
                    },
                    None => None,
                }
            } else {
                None
            }
        },
    }
}

fn read_bool(b: &[u8], pos: usize) -> (r: Option<(bool, usize)>)
    requires
        pos <= b@.len(),
    ensures
        match r {
            Some(t) => {
                &&& dec_bool(b@.skip(pos as int)) == Some((t.0, b@.skip(t.1 as int)))
                &&& pos <= t.1 <= b@.len()
            },
            None => dec_bool(b@.skip(pos as int)) is None,
        },
{
    if pos < b.len() {
        let tag = *slice_index_get(b, pos);
        proof {
            assert(b@.skip(pos as int)[0] == b@[pos as int]);
            assert(b@.skip(pos as int).skip(1) =~= b@.skip(pos as int + 1));
        }
        if tag == 0u8 {
            Some((false, pos + 1))
        } else if tag == 1u8 {
            Some((true, pos + 1))
        } else {
            None
        }
    } else {
        None
    }
}

fn read_opt_u64(b: &[u8], pos: usize) -> (r: Option<(Option<u64>, usize)>)
    requires
        pos <= b@.len(),
    ensures
        match r {
            Some(t) => {
                &&& dec_opt_u64(b@.skip(pos as int)) == Some((t.0, b@.skip(t.1 as int)))
                &&& pos <= t.1 <= b@.len()
            },
            None => dec_opt_u64(b@.skip(pos as int)) is None,
        },
{
    if pos < b.len() {
        let tag = *slice_index_get(b, pos);
        proof {
            assert(b@.skip(pos as int)[0] == b@[pos as int]);
            assert(b@.skip(pos as int).skip(1) =~= b@.skip(pos as int + 1));
        }
        if tag == 0u8 {
            Some((None, pos + 1))
        } else if tag == 1u8 {
            match read_u64(b, pos + 1) {
                Some((x, p)) => Some((Some(x), p)),
                None => None,
            }
        } else {
            None
        }
    } else {
        None
    }
}

fn read_meta(b: &[u8], pos: usize) -> (r: Option<(DocumentMetadata, usize)>)
    requires
        pos <= b@.len(),
    ensures
        match r {
            Some(t) => {
                &&& dec_meta(b@.skip(pos as int)) == Some((t.0@, b@.skip(t.1 as int)))
                &&& pos <= t.1 <= b@.len()
            },
            None => dec_meta(b@.skip(pos as int)) is None,
        },
{
    match read_str(b, pos) {
        None => None,
        Some((updated_by, p1)) => match read_str(b, p1) {
            None => None,
            Some((change_summary, p2)) => {
                let m = DocumentMetadata { updated_by, change_summary };
                proof {
                    assert(dec_meta(b@.skip(pos as int)) == Some((m@, b@.skip(p2 as int))));
                }
                Some((m, p2))
            },
        },
    }
}

fn read_version(b: &[u8], pos: usize) -> (r: Option<(DocumentVersion, usize)>)
    requires
        pos <= b@.len(),
    ensures
        match r {
            Some(t) => {
                &&& dec_version(b@.skip(pos as int)) == Some((t.0@, b@.skip(t.1 as int)))
                &&& pos <= t.1 <= b@.len()
            },
            None => dec_version(b@.skip(pos as int)) is None,
        },
{
    match read_u64(b, pos) {
        None => None,
        Some((version, p1)) => match read_str(b, p1) {
            None => None,
            Some((title, p2)) => match read_str(b, p2) {
                None => None,
                Some((description, p3)) => match read_str(b, p3) {
                    None => None,
                    Some((file_url, p4)) => match read_meta(b, p4) {
                        None => None,
                        Some((metadata, p5)) => match read_u64(b, p5) {
                            None => None,
                            Some((updated_at, p6)) => {
                                let v = DocumentVersion {
                                    version,
                                    title,
                                    description,
                                    file_url,
                                    metadata,
                                    updated_at,
                                };
                                proof {
                                    assert(dec_version(b@.skip(pos as int)) == Some((
                                        v@,
                                        b@.skip(p6 as int),
                                    )));
                                }
                                Some((v, p6))
                            },
                        },
                    },
                },
            },
        },
    }
}


impl Document {
    /// Reads a document back out of its byte framing; `None` when the bytes
    /// are not exactly one framed document.
    #[verifier::loop_isolation(false)]
    #[verifier::spinoff_prover]
    #[verifier::rlimit(100)]
    pub fn from_bytes(b: &[u8]) -> (r: Option<Document>)
        ensures
            match r {
                Some(d) => dec_doc(b@) == Some(d@),
                None => dec_doc(b@) is None,
            },
    {
        proof {
            assert(b@.skip(0) =~= b@);
        }
        match read_u64(b, 0) {
            None => None,
            Some((id, p1)) => match read_str(b, p1) {
                None => None,
                Some((title, p2)) => match read_str(b, p2) {
                    None => None,
                    Some((description, p3)) => match read_str(b, p3) {
                        None => None,
                        Some((file_url, p4)) => match read_u64(b, p4) {
                            None => None,
                            Some((version, p5)) => match read_u64(b, p5) {
                                None => None,
                                Some((created_at, p6)) => match read_opt_u64(b, p6) {
                                    None => None,
                                    Some((updated_at, p7)) => match read_bool(b, p7) {
                                        None => None,
                                        Some((is_deleted, p8)) => match read_u64(b, p8) {
                                            None => None,
                                            Some((count, p9)) => {
                                                let mut hist: Vec<DocumentVersion> = Vec::new();
                                                let mut pos = p9;
                                                let mut i: u64 = 0;
                                                while i < count
                                                    invariant
                                                        pos <= b@.len(),
                                                        0 <= i <= count,
                                                        hist.deep_view().len() == i,
                                                        dec_history(b@.skip(p9 as int), count as nat)
                                                            == (match dec_history(
                                                            b@.skip(pos as int),
                                                            (count - i) as nat,
                                                        ) {
                                                            Some(t) => Some(
                                                                (hist.deep_view() + t.0, t.1),
                                                            ),
                                                            None => None::<(Seq<VersionView>, Seq<u8>)>,
                                                        }),
                                                    decreases count - i,
                                                {
                                                    match read_version(b, pos) {
                                                        None => {
                                                            proof {
                                                                assert(dec_doc(b@) is None);
                                                            }
                                                            return None;
                                                        },
                                                        Some((ver, pn)) => {
                                                            let ghost hdv = hist.deep_view();
                                                            let ghost k = (count - i) as nat;
                                                            hist.push(ver);
                                                            proof {
                                                                assert(hist.deep_view() =~= hdv.push(
                                                                    ver@,
                                                                ));
                                                                match dec_history(
                                                                    b@.skip(pn as int),
                                                                    (k - 1) as nat,
                                                                ) {
                                                                    Some(t) => {
                                                                        assert(hdv.push(ver@) + t.0
                                                                            =~= hdv + (seq![ver@]
                                                                            + t.0));
                                                                    },
                                                                    None => {},
                                                                }
                                                            }
                                                            pos = pn;
                                                            i = i + 1;
                                                        },
                                                    }
                                                }
                                                proof {
                                                    assert(hist.deep_view() + Seq::<VersionView>::empty()
                                                        =~= hist.deep_view());
                                                }
                                                if pos == b.len() {
                                                    let d = Document {
                                                        id,
                                                        title,
                                                        description,
                                                        file_url,
                                                        version,
                                                        created_at,
                                                        updated_at,
                                                        is_deleted,
                                                        history: hist,
                                                    };
                                                    proof {
                                                        assert(b@.skip(pos as int) =~= Seq::<u8>::empty());
                                                        assert(d@.history == d.history.deep_view());
                                                        assert(d@.history.len() as u64 == count);
                                                        lemma_dec_doc_compose(
                                                            b@,
                                                            d@,
                                                            b@.skip(p1 as int),
                                                            b@.skip(p2 as int),
                                                            b@.skip(p3 as int),
                                                            b@.skip(p4 as int),
                                                            b@.skip(p5 as int),
                                                            b@.skip(p6 as int),
                                                            b@.skip(p7 as int),
                                                            b@.skip(p8 as int),
                                                            b@.skip(p9 as int),
                                                        );
                                                    }
                                                    Some(d)
                                                } else {
                                                    proof {
                                                        assert(b@.skip(pos as int).len() != 0);
                                                        assert(dec_doc(b@) is None);
                                                    }
                                                    None
                                                }
                                            },
                                        },
                                    },
                                },
                            },
                        },
                    },
                },
            },
        }
    }
}

} // verus!
