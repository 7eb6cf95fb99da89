//! Domain-name labels and the name codec of RFC 1035 sections 3.1 and
//! 4.1.4: a name on the wire is a sequence of length-prefixed labels ended
//! by a zero length byte, or ended early by a two-byte compression pointer
//! whose 14-bit value is an absolute offset into the same message buffer.

use crate::error::DnsError;
use crate::utf8_check::is_valid_utf8;
use vstd::prelude::*;
use vstd::slice::slice_to_vec;
use vstd::utf8::valid_utf8;

verus! {

/// How many compression-pointer hops decoding follows before giving up.
/// The wire format itself puts no bound on a pointer chain, so a crafted
/// packet could point at itself forever; capping the hops turns such a loop
/// into a decode error. Well-formed messages in practice chain one hop.
pub const MAX_POINTER_HOPS: u8 = 64;

/// One dot-separated component of a domain name, stored with its explicit
/// length prefix. The text is the label's raw bytes; decoding only accepts
/// valid UTF-8.
#[derive(Debug, Clone, PartialEq, Eq)]
pub struct DnsLabel {
    /// The length prefix: 1 to 63, the low six bits of the header byte.
    pub length: u8,
    /// The label's bytes, `length` of them.
    pub label: Vec<u8>,
}

/// The mathematical value of a label: its length prefix and its text.
pub ghost struct LabelV {
    /// The length prefix.
    pub length: u8,
    /// The text bytes.
    pub text: Seq<u8>,
}

impl View for DnsLabel {
    type V = LabelV;

    open spec fn view(&self) -> LabelV {
        LabelV { length: self.length, text: self.label@ }
    }
}

/// The value of a whole name: each label's value, in order.
pub open spec fn name_view(n: Seq<DnsLabel>) -> Seq<LabelV> {
    n.map_values(|l: DnsLabel| l@)
}

/// A structurally valid label: the length prefix is 1 to 63, counts the
/// text bytes exactly, and the text is valid UTF-8.
pub open spec fn label_wf(l: LabelV) -> bool {
    &&& 1 <= l.length <= 63
    &&& l.text.len() == l.length
    &&& valid_utf8(l.text)
}

/// A structurally valid name: every label is.
pub open spec fn name_wf(n: Seq<LabelV>) -> bool {
    forall|i: int| 0 <= i < n.len() ==> label_wf(#[trigger] n[i])
}

/// The wire bytes of one label: the length byte, then the text.
pub open spec fn spec_label_bytes(l: LabelV) -> Seq<u8> {
    seq![l.length] + l.text
}

/// The wire bytes of a name's labels, without the terminator.
pub open spec fn spec_labels_bytes(n: Seq<LabelV>) -> Seq<u8>
    decreases n.len(),
{
    if n.len() == 0 {
        Seq::empty()
    } else {
        spec_label_bytes(n[0]) + spec_labels_bytes(n.skip(1))
    }
}

/// The wire bytes of a whole name: the labels, then the zero terminator.
/// Encoding never produces the compression-pointer form.
pub open spec fn spec_name_bytes(n: Seq<LabelV>) -> Seq<u8> {
    spec_labels_bytes(n) + seq![0u8]
}

/// The name decoded from `buf` at `pos`, following at most `hops`
/// compression pointers, together with the position just past the bytes the
/// name occupies at `pos` itself. Following a pointer never moves that
/// resumption position: the pointer's two bytes are the name's last, so the
/// fields after the name are read correctly. A length byte with top bits
/// `01` or `10` belongs to no name form and is malformed; a pointer that
/// leaves the buffer, or a chain longer than `hops`, is reported as a
/// pointer error.
pub open spec fn spec_decode_name(buf: Seq<u8>, pos: int, hops: nat) -> Result<
    (Seq<LabelV>, int),
    DnsError,
>
    decreases hops, buf.len() - pos,
{
    if pos < 0 || pos >= buf.len() {
        Err(DnsError::UnexpectedEof)
    } else {
        let len = buf[pos];
        if len == 0 {
            Ok((Seq::empty(), pos + 1))
        } else if len <= 63 {
            if pos + 1 + len > buf.len() {
                Err(DnsError::UnexpectedEof)
            } else {
                let text = buf.subrange(pos + 1, pos + 1 + len);
                if !valid_utf8(text) {
                    Err(DnsError::InvalidLabelEncoding)
                } else {
                    match spec_decode_name(buf, pos + 1 + len, hops) {
                        Ok((rest, end)) => Ok((seq![LabelV { length: len, text }] + rest, end)),
                        Err(e) => Err(e),
                    }
                }
            }
        } else if len >= 0xc0 {
            if pos + 1 >= buf.len() {
                Err(DnsError::UnexpectedEof)
            } else {
                let off = (len - 0xc0) * 0x100 + buf[pos + 1];
                if off >= buf.len() {
                    Err(DnsError::PointerLoopOrOutOfRange)
                } else if hops == 0 {
                    Err(DnsError::PointerLoopOrOutOfRange)
                } else {
                    match spec_decode_name(buf, off as int, (hops - 1) as nat) {
                        Ok((labels, _)) => Ok((labels, pos + 2)),
                        Err(e) => Err(e),
                    }
                }
            }
        } else {
            Err(DnsError::MalformedName)
        }
    }
}

/// Decodes a name from `buf` at `pos` with the hop bound `hops`, exactly as
/// [`spec_decode_name`] describes.
fn decode_name_rec(buf: &[u8], pos: usize, hops: u8) -> (r: Result<
    (Vec<DnsLabel>, usize),
    DnsError,
>)
    ensures
        (match r {
            Ok((labels, end)) => spec_decode_name(buf@, pos as int, hops as nat) == Ok::<
                (Seq<LabelV>, int),
                DnsError,
            >((name_view(labels@), end as int)),
            Err(e) => spec_decode_name(buf@, pos as int, hops as nat) == Err::<
                (Seq<LabelV>, int),
                DnsError,
            >(e),
        }),
    decreases hops, buf@.len() - pos,
{
    if pos >= buf.len() {
        return Err(DnsError::UnexpectedEof);
    }
    let len = buf[pos];
    if len == 0 {
        let labels: Vec<DnsLabel> = Vec::new();
        proof {
            assert(name_view(labels@) =~= Seq::<LabelV>::empty());
        }
        Ok((labels, pos + 1))
    } else if len <= 63 {
        let l = len as usize;
        if l > buf.len() - (pos + 1) {
            return Err(DnsError::UnexpectedEof);
        }
        let text_slice = &buf[pos + 1..pos + 1 + l];
        if !is_valid_utf8(text_slice) {
            return Err(DnsError::InvalidLabelEncoding);
        }
        let text = slice_to_vec(text_slice);
        match decode_name_rec(buf, pos + 1 + l, hops) {
            Ok((rest, end)) => {
                let ghost rest0 = rest@;
                let mut labels = rest;
                labels.insert(0, DnsLabel { length: len, label: text });
                proof {
                    assert(name_view(labels@) =~= seq![
                        LabelV { length: len, text: buf@.subrange(pos + 1, pos + 1 + len) },
                    ] + name_view(rest0));
                }
                Ok((labels, end))
            },
            Err(e) => Err(e),
        }
    } else if len >= 0xc0 {
        if pos + 1 >= buf.len() {
            return Err(DnsError::UnexpectedEof);
        }
        let off = ((len - 0xc0) as usize) * 0x100 + (buf[pos + 1] as usize);
        if off >= buf.len() {
            return Err(DnsError::PointerLoopOrOutOfRange);
        }
        if hops == 0 {
            return Err(DnsError::PointerLoopOrOutOfRange);
        }
        match decode_name_rec(buf, off, hops - 1) {
            Ok((labels, _end)) => Ok((labels, pos + 2)),
            Err(e) => Err(e),
        }
    } else {
        Err(DnsError::MalformedName)
    }
}

/// Decodes a name from `buf` at the absolute position `pos`, resolving
/// compression pointers against the same buffer, with the default hop bound
/// [`MAX_POINTER_HOPS`]. Returns the labels and the position just past the
/// name's own bytes at `pos`.
pub fn decode_name(buf: &[u8], pos: usize) -> (r: Result<(Vec<DnsLabel>, usize), DnsError>)
    ensures
        (match r {
            Ok((labels, end)) => spec_decode_name(buf@, pos as int, MAX_POINTER_HOPS as nat)
                == Ok::<(Seq<LabelV>, int), DnsError>((name_view(labels@), end as int)),
            Err(e) => spec_decode_name(buf@, pos as int, MAX_POINTER_HOPS as nat) == Err::<
                (Seq<LabelV>, int),
                DnsError,
            >(e),
        }),
{
    decode_name_rec(buf, pos, MAX_POINTER_HOPS)
}

/// Encodes a name as its wire bytes: each label's length byte and text in
/// order, then the zero terminator. No compression is ever produced.
pub fn encode_name(name: &Vec<DnsLabel>) -> (r: Vec<u8>)
    ensures
        r@ == spec_name_bytes(name_view(name@)),
{
    let ghost nv = name_view(name@);
    let mut out: Vec<u8> = Vec::new();
    for i in 0..name.len()
        invariant
            nv == name_view(name@),
            out@ == spec_labels_bytes(nv.take(i as int)),
    {
        out.push(name[i].length);
        let label = &name[i].label;
        for j in 0..label.len()
            invariant
                nv == name_view(name@),
                0 <= i < name.len(),
                label == &name@[i as int].label,
                out@ == spec_labels_bytes(nv.take(i as int)) + seq![name@[i as int].length]
                    + label@.take(j as int),
        {
            out.push(label[j]);
            proof {
                assert(label@.take(j + 1) =~= label@.take(j as int).push(label@[j as int]));
            }
        }
        proof {
            lemma_labels_bytes_snoc(nv.take(i as int), nv[i as int]);
            assert(nv.take(i + 1) =~= nv.take(i as int).push(nv[i as int]));
            assert(label@.take(label@.len() as int) =~= label@);
            assert(out@ =~= spec_labels_bytes(nv.take(i + 1)));
        }
    }
    out.push(0);
    proof {
        assert(nv.take(nv.len() as int) =~= nv);
        assert(out@ =~= spec_name_bytes(nv));
    }
    out
}

/// Appending one label to a name appends that label's bytes to the name's
/// label bytes.
pub proof fn lemma_labels_bytes_snoc(n: Seq<LabelV>, l: LabelV)
    ensures
        spec_labels_bytes(n.push(l)) == spec_labels_bytes(n) + spec_label_bytes(l),
    decreases n.len(),
{
    if n.len() == 0 {
        assert(n.push(l)[0] == l);
        assert(n.push(l).skip(1) =~= Seq::<LabelV>::empty());
        assert(spec_labels_bytes(n.push(l)) == spec_label_bytes(l) + spec_labels_bytes(
            Seq::<LabelV>::empty(),
        ));
        assert(spec_label_bytes(l) + Seq::<u8>::empty() =~= Seq::<u8>::empty() + spec_label_bytes(
            l,
        ));
    } else {
        assert(n.push(l).skip(1) =~= n.skip(1).push(l));
        lemma_labels_bytes_snoc(n.skip(1), l);
        assert(n.push(l)[0] == n[0]);
        assert(spec_labels_bytes(n.push(l)) == spec_label_bytes(n[0]) + (spec_labels_bytes(n.skip(1))
            + spec_label_bytes(l)));
        assert(spec_label_bytes(n[0]) + (spec_labels_bytes(n.skip(1)) + spec_label_bytes(l)) =~= (
        spec_label_bytes(n[0]) + spec_labels_bytes(n.skip(1))) + spec_label_bytes(l));
    }
}

/// Whatever a successful decode returns is a well-formed name, and the
/// resumption position moves forward without leaving the buffer.
pub proof fn lemma_decode_name_ok(buf: Seq<u8>, pos: int, hops: nat)
    ensures
        (match spec_decode_name(buf, pos, hops) {
            Ok((labels, end)) => name_wf(labels) && pos < end <= buf.len(),
            Err(_) => true,
        }),
    decreases hops, buf.len() - pos,
{
    if pos < 0 || pos >= buf.len() {
    } else {
        let len = buf[pos];
        if len == 0 {
        } else if len <= 63 {
            if pos + 1 + len > buf.len() {
            } else {
                let text = buf.subrange(pos + 1, pos + 1 + len);
                if valid_utf8(text) {
                    lemma_decode_name_ok(buf, pos + 1 + len, hops);
                    match spec_decode_name(buf, pos + 1 + len, hops) {
                        Ok((rest, end)) => {
                            let first = LabelV { length: len, text };
                            assert(label_wf(first));
                            let labels = seq![first] + rest;
                            assert forall|i: int| 0 <= i < labels.len() implies label_wf(
                                #[trigger] labels[i],
                            ) by {
                                if i > 0 {
                                    assert(labels[i] == rest[i - 1]);
                                }
                            }
                        },
                        Err(_) => {},
                    }
                }
            }
        } else if len >= 0xc0 {
            if pos + 1 >= buf.len() {
            } else {
                let off = (len - 0xc0) * 0x100 + buf[pos + 1];
                if off < buf.len() && hops > 0 {
                    lemma_decode_name_ok(buf, off as int, (hops - 1) as nat);
                }
            }
        }
    }
}

/// The round-trip law for names without compression: wherever the encoding
/// of a well-formed name sits whole in a buffer, decoding the buffer at
/// that position yields exactly that name, and stops exactly past its
/// bytes.
pub proof fn lemma_name_round_trip(buf: Seq<u8>, pos: int, n: Seq<LabelV>, hops: nat)
    requires
        name_wf(n),
        0 <= pos,
        pos + spec_name_bytes(n).len() <= buf.len(),
        buf.subrange(pos, pos + spec_name_bytes(n).len() as int) == spec_name_bytes(n),
    ensures
        spec_decode_name(buf, pos, hops) == Ok::<(Seq<LabelV>, int), DnsError>(
            (n, pos + spec_name_bytes(n).len() as int),
        ),
    decreases n.len(),
{
    let nb = spec_name_bytes(n);
    assert(buf[pos] == nb[0]);
    if n.len() == 0 {
        assert(nb =~= seq![0u8]);
        assert(spec_decode_name(buf, pos, hops) == Ok::<(Seq<LabelV>, int), DnsError>(
            (Seq::<LabelV>::empty(), pos + 1),
        ));
        assert(n =~= Seq::<LabelV>::empty());
    } else {
        let l = n[0];
        assert(label_wf(l));
        let rest = n.skip(1);
        let rest_bytes = spec_name_bytes(rest);
        assert(nb =~= spec_label_bytes(l) + rest_bytes);
        assert(nb[0] == l.length);
        let len = l.length;
        assert(pos + 1 + len <= buf.len());
        let text = buf.subrange(pos + 1, pos + 1 + len);
        assert(text =~= l.text) by {
            assert forall|j: int| 0 <= j < len implies text[j] == l.text[j] by {
                assert(text[j] == buf[pos + 1 + j]);
                assert(buf[pos + 1 + j] == nb[1 + j]);
                assert(nb[1 + j] == spec_label_bytes(l)[1 + j]);
            }
        }
        assert(valid_utf8(text));
        assert(name_wf(rest));
        assert(buf.subrange(pos + 1 + len, pos + 1 + len + rest_bytes.len() as int) == rest_bytes)
            by {
            let sub = buf.subrange(pos + 1 + len, pos + 1 + len + rest_bytes.len() as int);
            assert forall|j: int| 0 <= j < rest_bytes.len() implies sub[j] == rest_bytes[j] by {
                assert(sub[j] == buf[pos + 1 + len + j]);
                assert(buf[pos + 1 + len + j] == nb[1 + len + j]);
                assert(nb[1 + len + j] == rest_bytes[j]);
            }
            assert(sub =~= rest_bytes);
        }
        lemma_name_round_trip(buf, pos + 1 + len, rest, hops);
        let first = LabelV { length: len, text };
        assert(first == l);
        assert(seq![first] + rest =~= n);
        assert(pos + 1 + len + rest_bytes.len() == pos + nb.len());
    }
}

/// The round-trip law in its direct form: decoding a buffer that holds
/// exactly the encoding of a well-formed name reconstructs the name.
pub proof fn lemma_name_encode_decode(n: Seq<LabelV>, hops: nat)
    requires
        name_wf(n),
    ensures
        spec_decode_name(spec_name_bytes(n), 0, hops) == Ok::<(Seq<LabelV>, int), DnsError>(
            (n, spec_name_bytes(n).len() as int),
        ),
{
    let nb = spec_name_bytes(n);
    assert(nb.subrange(0, nb.len() as int) =~= nb);
    lemma_name_round_trip(nb, 0, n, hops);
}

} // verus!
