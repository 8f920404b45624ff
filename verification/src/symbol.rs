//! Symbol names under the Itanium mangling ABI.
//!
//! A [`Symbol`] is a scoped name plus an optional parameter signature.
//! [`Symbol::to_itanium`] renders it to the ABI text encoding and
//! [`Symbol::parse`] decodes the supported subset of that encoding back.
//! Only the grammar this crate itself produces or consumes is supported;
//! anything else is a hard decode failure.

use vstd::prelude::*;
use vstd::slice::{slice_index_get, slice_subrange};

pub mod itanium;

verus! {

/// A linker symbol: a name plus an optional signature.
#[derive(Debug, PartialEq, Eq)]
pub struct Symbol {
    name: Name,
    sig: Option<Signature>,
}

/// Name of a symbol.
#[derive(Debug, PartialEq, Eq)]
pub enum Name {
    Nested(Vec<Segment>),
    Unscoped(Segment),
}

/// Segment of a name. Order mirrors nesting, outer scope first.
#[derive(Debug, PartialEq, Eq)]
pub enum Segment {
    Ident(Vec<u8>),
    TemplateArg(TemplateArg),
    Ctor,
    Dtor,
    New,
    Delete,
}

/// Argument of a template instantiation; only bare identifiers are supported.
#[derive(Debug, PartialEq, Eq)]
pub enum TemplateArg {
    Ident(Vec<u8>),
}

/// Signature of a function symbol: its ordered parameter types.
#[derive(Debug, PartialEq, Eq)]
pub struct Signature {
    params: Vec<Type>,
}

/// Foreign parameter type, used only to build signatures.
#[derive(Debug, PartialEq, Eq)]
pub enum Type {
    Void,
    Ulong,
    Ptr { c: bool, t: Box<Type> },
}

/// Failure to decode a mangled name.
#[derive(Debug, PartialEq, Eq, Clone, Copy)]
pub enum SymbolError {
    /// The input does not start with a recognized mangling prefix.
    UnrecognizedPrefix,
    /// The input starts with a recognized prefix but uses grammar outside
    /// the supported subset.
    UnknownSymbol,
}

/// Mathematical value of a [`Segment`].
pub enum SegView {
    Ident(Seq<u8>),
    TemplateArg(Seq<u8>),
    Ctor,
    Dtor,
    New,
    Delete,
}

/// Mathematical value of a [`Name`].
pub enum NameView {
    Nested(Seq<SegView>),
    Unscoped(SegView),
}

/// Mathematical value of a [`Symbol`].
pub struct SymbolView {
    pub name: NameView,
    pub sig: Option<Seq<Type>>,
}

impl View for Segment {
    type V = SegView;

    open spec fn view(&self) -> SegView {
        match self {
            Segment::Ident(v) => SegView::Ident(v@),
            Segment::TemplateArg(TemplateArg::Ident(v)) => SegView::TemplateArg(v@),
            Segment::Ctor => SegView::Ctor,
            Segment::Dtor => SegView::Dtor,
            Segment::New => SegView::New,
            Segment::Delete => SegView::Delete,
        }
    }
}

impl View for Name {
    type V = NameView;

    open spec fn view(&self) -> NameView {
        match self {
            Name::Nested(v) => NameView::Nested(v@.map_values(|s: Segment| s@)),
            Name::Unscoped(s) => NameView::Unscoped(s@),
        }
    }
}

impl View for Signature {
    type V = Seq<Type>;

    closed spec fn view(&self) -> Seq<Type> {
        self.params@
    }
}

impl View for Symbol {
    type V = SymbolView;

    closed spec fn view(&self) -> SymbolView {
        SymbolView {
            name: self.name@,
            sig: match &self.sig {
                Some(s) => Some(s@),
                None => None,
            },
        }
    }
}

/// An ASCII decimal digit.
pub open spec fn is_digit(b: u8) -> bool {
    48 <= b <= 57
}

/// Numeric value of an ASCII decimal digit; other bytes count as zero.
pub open spec fn digit_val(b: u8) -> nat {
    if is_digit(b) {
        (b - 48) as nat
    } else {
        0
    }
}

/// A byte of the ABI's restricted identifier charset: ASCII letters,
/// digits and underscore.
pub open spec fn is_ident_byte(b: u8) -> bool {
    (97 <= b <= 122) || (65 <= b <= 90) || is_digit(b) || b == 95
}

/// A well-formed identifier: non-empty, in the restricted charset, and not
/// starting with a digit.
pub open spec fn wf_ident(s: Seq<u8>) -> bool {
    &&& s.len() > 0
    &&& !is_digit(s[0])
    &&& forall|i: int| 0 <= i < s.len() ==> is_ident_byte(#[trigger] s[i])
}

/// A well-formed segment: its identifier, if any, is well-formed.
pub open spec fn wf_seg(s: SegView) -> bool {
    match s {
        SegView::Ident(v) => wf_ident(v),
        SegView::TemplateArg(v) => wf_ident(v),
        _ => true,
    }
}

/// A symbol this crate itself constructs: every segment is well-formed and
/// the signature, when present, is non-empty.
pub open spec fn wf_symbol(s: SymbolView) -> bool {
    &&& match s.name {
        NameView::Nested(ss) => forall|i: int| 0 <= i < ss.len() ==> wf_seg(#[trigger] ss[i]),
        NameView::Unscoped(g) => wf_seg(g),
    }
    &&& match s.sig {
        Some(ts) => ts.len() > 0,
        None => true,
    }
}

/// Decimal digits of `n`, most significant first, no leading zero.
pub open spec fn dec_digits(n: nat) -> Seq<u8>
    decreases n,
{
    if n < 10 {
        seq![(48 + n) as u8]
    } else {
        dec_digits(n / 10).push((48 + n % 10) as u8)
    }
}

/// Encoding of one segment: identifiers are length-prefixed, template
/// arguments are wrapped in `I`..`E`, the special members use their fixed
/// two-character codes.
pub open spec fn enc_seg(s: SegView) -> Seq<u8> {
    match s {
        SegView::Ident(v) => dec_digits(v.len()) + v,
        SegView::TemplateArg(v) => seq![73u8] + dec_digits(v.len()) + v + seq![69u8],
        SegView::Ctor => seq![67u8, 49u8],
        SegView::Dtor => seq![68u8, 49u8],
        SegView::New => seq![110u8, 119u8],
        SegView::Delete => seq![100u8, 108u8],
    }
}

/// Encoding of a segment sequence.
pub open spec fn enc_segs(ss: Seq<SegView>) -> Seq<u8>
    decreases ss.len(),
{
    if ss.len() == 0 {
        Seq::empty()
    } else {
        enc_seg(ss[0]) + enc_segs(ss.drop_first())
    }
}

/// Encoding of one type: `v` for void, `m` for unsigned long, `P`/`PK` for
/// a pointer depending on constness, recursing into the pointee.
pub open spec fn enc_type(t: Type) -> Seq<u8>
    decreases t,
{
    match t {
        Type::Void => seq![118u8],
        Type::Ulong => seq![109u8],
        Type::Ptr { c, t } => (if c {
            seq![80u8, 75u8]
        } else {
            seq![80u8]
        }) + enc_type(*t),
    }
}

/// Encoding of a type sequence.
pub open spec fn enc_types(ts: Seq<Type>) -> Seq<u8>
    decreases ts.len(),
{
    if ts.len() == 0 {
        Seq::empty()
    } else {
        enc_type(ts[0]) + enc_types(ts.drop_first())
    }
}

/// Encoding of a name: nested names are wrapped in `N`..`E`.
pub open spec fn enc_name(n: NameView) -> Seq<u8> {
    match n {
        NameView::Nested(ss) => seq![78u8] + enc_segs(ss) + seq![69u8],
        NameView::Unscoped(g) => enc_seg(g),
    }
}

/// Encoding of an optional signature.
pub open spec fn enc_sig(sig: Option<Seq<Type>>) -> Seq<u8> {
    match sig {
        Some(ts) => enc_types(ts),
        None => Seq::empty(),
    }
}

/// The full ABI text encoding of a symbol.
pub open spec fn encode_spec(s: SymbolView) -> Seq<u8> {
    seq![95u8, 90u8] + enc_name(s.name) + enc_sig(s.sig)
}

/// The input begins with one of the two recognized prefix markers,
/// `_Z` or `__Z`.
pub open spec fn has_recognized_prefix(m: Seq<u8>) -> bool {
    (m.len() >= 2 && m[0] == 95 && m[1] == 90) || (m.len() >= 3 && m[0] == 95 && m[1] == 95 && m[2]
        == 90)
}

/// Decoding of a mangled name: strip a recognized prefix, then decode the
/// nested name and optional signature; anything else is rejected.
pub open spec fn decode_spec(m: Seq<u8>) -> Result<SymbolView, SymbolError> {
    if m.len() >= 2 && m[0] == 95 && m[1] == 90 {
        itanium::parse_spec(m.skip(2))
    } else if m.len() >= 3 && m[0] == 95 && m[1] == 95 && m[2] == 90 {
        itanium::parse_spec(m.skip(3))
    } else {
        Err(SymbolError::UnrecognizedPrefix)
    }
}

/// Round-trip law: decoding the encoding of any symbol this crate's
/// name-building paths can construct — a nested name of well-formed
/// segments with an optional non-empty signature — yields the symbol back.
pub proof fn lemma_round_trip(s: SymbolView)
    requires
        wf_symbol(s),
        s.name is Nested,
    ensures
        decode_spec(encode_spec(s)) == Ok::<_, SymbolError>(s),
{
    let m = encode_spec(s);
    let ss = s.name->Nested_0;
    let es = enc_segs(ss);
    let body = seq![78u8] + es + seq![69u8];
    assert(enc_name(s.name) == body);
    assert(m == seq![95u8, 90u8] + body + enc_sig(s.sig));
    assert(m.len() >= 2 && m[0] == 95 && m[1] == 90);
    let m2 = m.skip(2);
    assert(m2 =~= body + enc_sig(s.sig));
    assert(m2[0] == 78);
    let ese = es + seq![69u8];
    assert(m2.subrange(0, m2.len() as int) =~= m2);
    assert(m2 =~= seq![78u8] + (ese + enc_sig(s.sig)));
    assert(m2.subrange(0, 0 + seq![78u8].len() as int + (ese + enc_sig(s.sig)).len()) == seq![78u8] + (ese
        + enc_sig(s.sig)));
    itanium::lemma_subrange_split(m2, 0, seq![78u8], ese + enc_sig(s.sig));
    assert(m2.subrange(1, 1 + ese.len() as int + enc_sig(s.sig).len()) == ese + enc_sig(s.sig));
    itanium::lemma_subrange_split(m2, 1, ese, enc_sig(s.sig));
    assert(m2.subrange(1, 1 + es.len() as int + 1) == ese);
    itanium::lemma_parse_segments_of_enc(m2, 1, ss);
    let j: int = 1 + es.len() as int + 1;
    assert(itanium::parse_segments_at(m2, 1) == Ok::<_, SymbolError>((ss, j)));
    match s.sig {
        None => {
            assert(j == m2.len());
            assert(itanium::parse_types_at(m2, j) == Ok::<_, SymbolError>(Seq::<Type>::empty()));
        }
        Some(ts) => {
            assert(m2.subrange(j, m2.len() as int) == enc_types(ts));
            itanium::lemma_parse_types_of_enc(m2, j, ts);
            assert(ts.len() > 0);
        }
    }
}

/// Appending one more segment extends the encoding of a prefix.
proof fn lemma_enc_segs_take_push(ss: Seq<SegView>, i: int)
    requires
        0 <= i < ss.len(),
    ensures
        enc_segs(ss.take(i + 1)) == enc_segs(ss.take(i)) + enc_seg(ss[i]),
    decreases i,
{
    let t = ss.take(i + 1);
    assert(t.len() == i + 1);
    if i == 0 {
        assert(t.drop_first() =~= Seq::<SegView>::empty());
        assert(ss.take(0) =~= Seq::<SegView>::empty());
        assert(enc_segs(t) == enc_seg(ss[0]) + enc_segs(t.drop_first()));
        assert(enc_segs(ss.take(0)) + enc_seg(ss[0]) =~= enc_seg(ss[0]));
    } else {
        lemma_enc_segs_take_push(ss.drop_first(), i - 1);
        assert(t.drop_first() =~= ss.drop_first().take(i));
        assert(ss.take(i).drop_first() =~= ss.drop_first().take(i - 1));
        assert(ss.drop_first()[i - 1] == ss[i]);
        assert(enc_segs(t) == enc_seg(ss[0]) + enc_segs(ss.drop_first().take(i)));
        assert(enc_segs(ss.take(i)) == enc_seg(ss[0]) + enc_segs(ss.drop_first().take(i - 1)));
        assert(enc_segs(ss.take(i)) + enc_seg(ss[i]) == enc_seg(ss[0]) + (enc_segs(
            ss.drop_first().take(i - 1),
        ) + enc_seg(ss.drop_first()[i - 1]))) by {
            assert((enc_seg(ss[0]) + enc_segs(ss.drop_first().take(i - 1))) + enc_seg(ss[i])
                =~= enc_seg(ss[0]) + (enc_segs(ss.drop_first().take(i - 1)) + enc_seg(
                ss.drop_first()[i - 1],
            )));
        }
    }
}

/// Appending one more type extends the encoding of a prefix.
proof fn lemma_enc_types_take_push(ts: Seq<Type>, i: int)
    requires
        0 <= i < ts.len(),
    ensures
        enc_types(ts.take(i + 1)) == enc_types(ts.take(i)) + enc_type(ts[i]),
    decreases i,
{
    let t = ts.take(i + 1);
    assert(t.len() == i + 1);
    if i == 0 {
        assert(t.drop_first() =~= Seq::<Type>::empty());
        assert(ts.take(0) =~= Seq::<Type>::empty());
        assert(enc_types(t) == enc_type(ts[0]) + enc_types(t.drop_first()));
        assert(enc_types(ts.take(0)) + enc_type(ts[0]) =~= enc_type(ts[0]));
    } else {
        lemma_enc_types_take_push(ts.drop_first(), i - 1);
        assert(t.drop_first() =~= ts.drop_first().take(i));
        assert(ts.take(i).drop_first() =~= ts.drop_first().take(i - 1));
        assert(ts.drop_first()[i - 1] == ts[i]);
        assert(enc_types(t) == enc_type(ts[0]) + enc_types(ts.drop_first().take(i)));
        assert(enc_types(ts.take(i)) == enc_type(ts[0]) + enc_types(ts.drop_first().take(i - 1)));
        assert(enc_types(ts.take(i)) + enc_type(ts[i]) == enc_type(ts[0]) + (enc_types(
            ts.drop_first().take(i - 1),
        ) + enc_type(ts.drop_first()[i - 1]))) by {
            assert((enc_type(ts[0]) + enc_types(ts.drop_first().take(i - 1))) + enc_type(ts[i])
                =~= enc_type(ts[0]) + (enc_types(ts.drop_first().take(i - 1)) + enc_type(
                ts.drop_first()[i - 1],
            )));
        }
    }
}

/// Append the decimal digits of `n`.
pub(crate) fn push_decimal(out: &mut Vec<u8>, n: usize)
    ensures
        final(out)@ == old(out)@ + dec_digits(n as nat),
    decreases n,
{
    if n < 10 {
        out.push((48 + n) as u8);
        proof {
            assert(final(out)@ =~= old(out)@ + dec_digits(n as nat));
        }
    } else {
        push_decimal(out, n / 10);
        out.push((48 + n % 10) as u8);
        proof {
            assert(final(out)@ =~= old(out)@ + dec_digits(n as nat));
        }
    }
}

/// Append all bytes of `v`.
fn push_bytes(out: &mut Vec<u8>, v: &Vec<u8>)
    ensures
        final(out)@ == old(out)@ + v@,
{
    let mut i: usize = 0;
    while i < v.len()
        invariant
            i <= v.len(),
            after_borrow(*out)@ == old(out)@ + v@.take(i as int),
        decreases v.len() - i,
    {
        out.push(v[i]);
        proof {
            assert(old(out)@ + v@.take(i + 1) =~= (old(out)@ + v@.take(i as int)).push(v@[i as int]));
        }
        i += 1;
    }
    proof {
        assert(v@.take(v@.len() as int) =~= v@);
    }
}

/// Append the encoding of one segment.
fn push_segment(out: &mut Vec<u8>, s: &Segment)
    ensures
        final(out)@ == old(out)@ + enc_seg(s@),
{
    match s {
        Segment::Ident(v) => {
            push_decimal(out, v.len());
            push_bytes(out, v);
            proof {
                assert(final(out)@ =~= old(out)@ + enc_seg(s@));
            }
        }
        Segment::TemplateArg(TemplateArg::Ident(v)) => {
            out.push(73);
            push_decimal(out, v.len());
            push_bytes(out, v);
            out.push(69);
            proof {
                assert(final(out)@ =~= old(out)@ + enc_seg(s@));
            }
        }
        Segment::Ctor => {
            out.push(67);
            out.push(49);
            proof {
                assert(final(out)@ =~= old(out)@ + enc_seg(s@));
            }
        }
        Segment::Dtor => {
            out.push(68);
            out.push(49);
            proof {
                assert(final(out)@ =~= old(out)@ + enc_seg(s@));
            }
        }
        Segment::New => {
            out.push(110);
            out.push(119);
            proof {
                assert(final(out)@ =~= old(out)@ + enc_seg(s@));
            }
        }
        Segment::Delete => {
            out.push(100);
            out.push(108);
            proof {
                assert(final(out)@ =~= old(out)@ + enc_seg(s@));
            }
        }
    }
}

/// Append the encoding of one type.
fn push_type(out: &mut Vec<u8>, t: &Type)
    ensures
        final(out)@ == old(out)@ + enc_type(*t),
    decreases *t,
{
    match t {
        Type::Void => {
            out.push(118);
            proof {
                assert(final(out)@ =~= old(out)@ + enc_type(*t));
            }
        }
        Type::Ulong => {
            out.push(109);
            proof {
                assert(final(out)@ =~= old(out)@ + enc_type(*t));
            }
        }
        Type::Ptr { c, t: p } => {
            out.push(80);
            if *c {
                out.push(75);
            }
            push_type(out, p);
            proof {
                assert(final(out)@ =~= old(out)@ + enc_type(*t));
            }
        }
    }
}

impl Symbol {
    /// Decode a mangled name. Rejects any input that does not start with
    /// a recognized prefix marker with [`SymbolError::UnrecognizedPrefix`];
    /// within a recognized prefix, any grammar outside the supported
    /// subset is [`SymbolError::UnknownSymbol`].
    pub fn parse(mangled: &[u8]) -> (r: Result<Symbol, SymbolError>)
        ensures
            match r {
                Ok(s) => decode_spec(mangled@) == Ok::<_, SymbolError>(s@),
                Err(e) => decode_spec(mangled@) == Err::<SymbolView, _>(e),
            },
            !has_recognized_prefix(mangled@) ==> r == Err::<Symbol, _>(
                SymbolError::UnrecognizedPrefix,
            ),
    {
        if mangled.len() >= 2 && *slice_index_get(mangled, 0) == 95 && *slice_index_get(mangled, 1)
            == 90 {
            let rest = slice_subrange(mangled, 2, mangled.len());
            proof {
                assert(rest@ =~= mangled@.skip(2));
            }
            itanium::parse(rest)
        } else if mangled.len() >= 3 && *slice_index_get(mangled, 0) == 95 && *slice_index_get(
            mangled,
            1,
        ) == 95 && *slice_index_get(mangled, 2) == 90 {
            let rest = slice_subrange(mangled, 3, mangled.len());
            proof {
                assert(rest@ =~= mangled@.skip(3));
            }
            itanium::parse(rest)
        } else {
            Err(SymbolError::UnrecognizedPrefix)
        }
    }

    /// Build a symbol from its parts.
    pub fn new(name: Name, sig: Option<Signature>) -> (r: Self)
        ensures
            r@.name == name@,
            r@.sig == match sig {
                Some(s) => Some(s@),
                None => None::<Seq<Type>>,
            },
    {
        Self { name, sig }
    }

    /// The symbol's name.
    pub fn name(&self) -> (r: &Name)
        ensures
            r@ == self@.name,
    {
        &self.name
    }

    /// Render the symbol to its ABI text encoding. Rendering never fails:
    /// it is only applied to symbols this crate itself constructs, which
    /// are within the supported subset by construction.
    pub fn to_itanium(&self) -> (r: Vec<u8>)
        ensures
            r@ == encode_spec(self@),
    {
        let mut out: Vec<u8> = Vec::new();
        out.push(95);
        out.push(90);
        proof {
            assert(out@ =~= seq![95u8, 90u8]);
        }
        match &self.name {
            Name::Nested(v) => {
                out.push(78);
                let ghost ss = v@.map_values(|s: Segment| s@);
                proof {
                    assert(out@ =~= seq![95u8, 90u8, 78u8] + enc_segs(ss.take(0)));
                }
                let mut i: usize = 0;
                while i < v.len()
                    invariant
                        i <= v.len(),
                        ss == v@.map_values(|s: Segment| s@),
                        ss.len() == v@.len(),
                        after_borrow(out)@ == seq![95u8, 90u8, 78u8] + enc_segs(ss.take(i as int)),
                    decreases v.len() - i,
                {
                    push_segment(&mut out, &v[i]);
                    proof {
                        lemma_enc_segs_take_push(ss, i as int);
                        assert(ss[i as int] == v@[i as int]@);
                        assert((seq![95u8, 90u8, 78u8] + enc_segs(ss.take(i as int))) + enc_seg(
                            ss[i as int],
                        ) =~= seq![95u8, 90u8, 78u8] + enc_segs(ss.take(i + 1)));
                    }
                    i += 1;
                }
                out.push(69);
                proof {
                    assert(ss.take(ss.len() as int) =~= ss);
                    assert(out@ =~= seq![95u8, 90u8] + enc_name(self@.name));
                }
            }
            Name::Unscoped(s) => {
                push_segment(&mut out, s);
                proof {
                    assert(out@ =~= seq![95u8, 90u8] + enc_name(self@.name));
                }
            }
        }
        match &self.sig {
            Some(sig) => {
                let v = &sig.params;
                let ghost base = out@;
                let mut i: usize = 0;
                proof {
                    assert(base + enc_types(v@.take(0)) =~= base);
                }
                while i < v.len()
                    invariant
                        i <= v.len(),
                        after_borrow(out)@ == base + enc_types(v@.take(i as int)),
                    decreases v.len() - i,
                {
                    push_type(&mut out, &v[i]);
                    proof {
                        lemma_enc_types_take_push(v@, i as int);
                        assert((base + enc_types(v@.take(i as int))) + enc_type(v@[i as int]) =~= base
                            + enc_types(v@.take(i + 1)));
                    }
                    i += 1;
                }
                proof {
                    assert(v@.take(v@.len() as int) =~= v@);
                    assert(out@ =~= encode_spec(self@));
                }
            }
            None => {
                proof {
                    assert(out@ + enc_sig(self@.sig) =~= out@);
                    assert(out@ =~= encode_spec(self@));
                }
            }
        }
        out
    }
}

impl Signature {
    /// Build a signature from its ordered parameter types.
    pub fn new(params: Vec<Type>) -> (r: Self)
        ensures
            r@ == params@,
    {
        Self { params }
    }
}

} // verus!

