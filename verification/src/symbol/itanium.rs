//! Decoder for the supported subset of the Itanium mangling grammar.
//!
//! The grammar consumed here, after the outer prefix has been stripped, is
//! a nested name `N <segment>* E` followed by an optional parameter list.
//! A segment is a length-prefixed source name, a template-argument group
//! `I <source-name>* E` (bare identifiers only), or one of the fixed
//! two-character codes `C1`, `D1`, `nw`, `dl`. Expression arguments,
//! literal arguments and argument packs are unsupported and fail decoding.

use crate::symbol::{
    dec_digits, digit_val, enc_seg, enc_segs, enc_type, enc_types, is_digit, is_ident_byte,
    NameView, SegView, Segment, Symbol, SymbolError, SymbolView, TemplateArg, Type,
};
use vstd::prelude::*;
use vstd::slice::slice_index_get;

verus! {

/// End of the maximal run of decimal digits starting at `i`.
pub open spec fn digit_run_end(m: Seq<u8>, i: int) -> int
    decreases m.len() - i,
    when 0 <= i <= m.len()
{
    if i < m.len() && is_digit(m[i]) {
        digit_run_end(m, i + 1)
    } else {
        i
    }
}

/// Value of the decimal digits of `m` in the range `[i, j)`.
pub open spec fn digits_value(m: Seq<u8>, i: int, j: int) -> nat
    decreases j - i,
    when i <= j
{
    if i >= j {
        0
    } else {
        digits_value(m, i, j - 1) * 10 + digit_val(m[j - 1])
    }
}

/// A length-prefixed source name at `i`: `<decimal length><raw bytes>`,
/// with no leading zero and every raw byte in the restricted charset.
pub open spec fn parse_source_name_at(m: Seq<u8>, i: int) -> Result<(Seq<u8>, int), SymbolError> {
    if !(0 <= i < m.len() && is_digit(m[i])) {
        Err(SymbolError::UnknownSymbol)
    } else if m[i] == 48 {
        Err(SymbolError::UnknownSymbol)
    } else {
        let j = digit_run_end(m, i);
        let n = digits_value(m, i, j) as int;
        if j + n > m.len() {
            Err(SymbolError::UnknownSymbol)
        } else if forall|k: int| j <= k < j + n ==> is_ident_byte(#[trigger] m[k]) {
            Ok((m.subrange(j, j + n), j + n))
        } else {
            Err(SymbolError::UnknownSymbol)
        }
    }
}

/// Template arguments after the opening `I`, up to and including the
/// closing `E`. Only bare-identifier arguments are supported.
pub open spec fn parse_template_args_at(m: Seq<u8>, i: int) -> Result<(Seq<SegView>, int), SymbolError>
    decreases m.len() - i,
    when 0 <= i
{
    if i >= m.len() {
        Err(SymbolError::UnknownSymbol)
    } else if m[i] == 69 {
        Ok((Seq::empty(), i + 1))
    } else if is_digit(m[i]) {
        match parse_source_name_at(m, i) {
            Err(e) => Err(e),
            Ok((v, j)) => if i < j <= m.len() {
                match parse_template_args_at(m, j) {
                    Err(e) => Err(e),
                    Ok((rest, k)) => Ok((seq![SegView::TemplateArg(v)] + rest, k)),
                }
            } else {
                Err(SymbolError::UnknownSymbol)
            },
        }
    } else {
        Err(SymbolError::UnknownSymbol)
    }
}

/// Segments of a nested name, up to and including the closing `E`.
pub open spec fn parse_segments_at(m: Seq<u8>, i: int) -> Result<(Seq<SegView>, int), SymbolError>
    decreases m.len() - i,
    when 0 <= i
{
    if i >= m.len() {
        Err(SymbolError::UnknownSymbol)
    } else if m[i] == 69 {
        Ok((Seq::empty(), i + 1))
    } else if is_digit(m[i]) {
        match parse_source_name_at(m, i) {
            Err(e) => Err(e),
            Ok((v, j)) => if i < j <= m.len() {
                match parse_segments_at(m, j) {
                    Err(e) => Err(e),
                    Ok((rest, k)) => Ok((seq![SegView::Ident(v)] + rest, k)),
                }
            } else {
                Err(SymbolError::UnknownSymbol)
            },
        }
    } else if m[i] == 73 {
        match parse_template_args_at(m, i + 1) {
            Err(e) => Err(e),
            Ok((tas, j)) => if i < j <= m.len() {
                match parse_segments_at(m, j) {
                    Err(e) => Err(e),
                    Ok((rest, k)) => Ok((tas + rest, k)),
                }
            } else {
                Err(SymbolError::UnknownSymbol)
            },
        }
    } else if m[i] == 67 {
        if i + 1 < m.len() && m[i + 1] == 49 {
            match parse_segments_at(m, i + 2) {
                Err(e) => Err(e),
                Ok((rest, k)) => Ok((seq![SegView::Ctor] + rest, k)),
            }
        } else {
            Err(SymbolError::UnknownSymbol)
        }
    } else if m[i] == 68 {
        if i + 1 < m.len() && m[i + 1] == 49 {
            match parse_segments_at(m, i + 2) {
                Err(e) => Err(e),
                Ok((rest, k)) => Ok((seq![SegView::Dtor] + rest, k)),
            }
        } else {
            Err(SymbolError::UnknownSymbol)
        }
    } else if m[i] == 110 {
        if i + 1 < m.len() && m[i + 1] == 119 {
            match parse_segments_at(m, i + 2) {
                Err(e) => Err(e),
                Ok((rest, k)) => Ok((seq![SegView::New] + rest, k)),
            }
        } else {
            Err(SymbolError::UnknownSymbol)
        }
    } else if m[i] == 100 {
        if i + 1 < m.len() && m[i + 1] == 108 {
            match parse_segments_at(m, i + 2) {
                Err(e) => Err(e),
                Ok((rest, k)) => Ok((seq![SegView::Delete] + rest, k)),
            }
        } else {
            Err(SymbolError::UnknownSymbol)
        }
    } else {
        Err(SymbolError::UnknownSymbol)
    }
}

/// One parameter type at `i`.
pub open spec fn parse_type_at(m: Seq<u8>, i: int) -> Result<(Type, int), SymbolError>
    decreases m.len() - i,
    when 0 <= i
{
    if i >= m.len() {
        Err(SymbolError::UnknownSymbol)
    } else if m[i] == 118 {
        Ok((Type::Void, i + 1))
    } else if m[i] == 109 {
        Ok((Type::Ulong, i + 1))
    } else if m[i] == 80 {
        if i + 1 < m.len() && m[i + 1] == 75 {
            match parse_type_at(m, i + 2) {
                Err(e) => Err(e),
                Ok((t, j)) => Ok((Type::Ptr { c: true, t: Box::new(t) }, j)),
            }
        } else {
            match parse_type_at(m, i + 1) {
                Err(e) => Err(e),
                Ok((t, j)) => Ok((Type::Ptr { c: false, t: Box::new(t) }, j)),
            }
        }
    } else {
        Err(SymbolError::UnknownSymbol)
    }
}

/// All parameter types from `i` to the end of the input.
pub open spec fn parse_types_at(m: Seq<u8>, i: int) -> Result<Seq<Type>, SymbolError>
    decreases m.len() - i,
    when 0 <= i
{
    if i >= m.len() {
        Ok(Seq::empty())
    } else {
        match parse_type_at(m, i) {
            Err(e) => Err(e),
            Ok((t, j)) => if i < j <= m.len() {
                match parse_types_at(m, j) {
                    Err(e) => Err(e),
                    Ok(rest) => Ok(seq![t] + rest),
                }
            } else {
                Err(SymbolError::UnknownSymbol)
            },
        }
    }
}

/// Decoding of a whole input with its prefix already stripped: a nested
/// name followed by an optional signature, with nothing left over.
pub open spec fn parse_spec(m: Seq<u8>) -> Result<SymbolView, SymbolError> {
    if m.len() == 0 || m[0] != 78 {
        Err(SymbolError::UnknownSymbol)
    } else {
        match parse_segments_at(m, 1) {
            Err(e) => Err(e),
            Ok((ss, j)) => if 0 <= j {
                match parse_types_at(m, j) {
                    Err(e) => Err(e),
                    Ok(ts) => Ok(
                        SymbolView {
                            name: NameView::Nested(ss),
                            sig: if ts.len() == 0 {
                                None
                            } else {
                                Some(ts)
                            },
                        },
                    ),
                }
            } else {
                Err(SymbolError::UnknownSymbol)
            },
        }
    }
}

/// Bounds and content of the maximal digit run starting at `i`.
pub proof fn lemma_digit_run_end(m: Seq<u8>, i: int)
    requires
        0 <= i <= m.len(),
    ensures
        i <= digit_run_end(m, i) <= m.len(),
        forall|k: int| i <= k < digit_run_end(m, i) ==> is_digit(#[trigger] m[k]),
        digit_run_end(m, i) == m.len() || !is_digit(m[digit_run_end(m, i)]),
    decreases m.len() - i,
{
    if i < m.len() && is_digit(m[i]) {
        lemma_digit_run_end(m, i + 1);
    }
}

/// The digit value so far only grows as more digits are taken in.
proof fn lemma_digits_value_mono(m: Seq<u8>, i: int, j: int, k: int)
    requires
        i <= j <= k,
    ensures
        digits_value(m, i, j) <= digits_value(m, i, k),
    decreases k - j,
{
    if j < k {
        lemma_digits_value_mono(m, i, j, k - 1);
        assert(digits_value(m, i, k - 1) * 10 >= digits_value(m, i, k - 1)) by (nonlinear_arith);
    }
}

/// Digits rendered by `dec_digits` are digits, and never lead with a zero
/// for a positive value.
proof fn lemma_dec_digits_props(n: nat)
    ensures
        dec_digits(n).len() >= 1,
        forall|k: int| 0 <= k < dec_digits(n).len() ==> is_digit(#[trigger] dec_digits(n)[k]),
        n >= 1 ==> dec_digits(n)[0] != 48,
    decreases n,
{
    if n >= 10 {
        lemma_dec_digits_props(n / 10);
        assert(forall|k: int|
            0 <= k < dec_digits(n).len() - 1 ==> #[trigger] dec_digits(n)[k] == dec_digits(n / 10)[
                k
            ]);
    }
}

/// A region of digits bounded by a non-digit (or the end of the input) is
/// exactly the maximal digit run.
proof fn lemma_digit_run(m: Seq<u8>, i: int, e: int)
    requires
        0 <= i <= e <= m.len(),
        forall|k: int| i <= k < e ==> is_digit(#[trigger] m[k]),
        e == m.len() || !is_digit(m[e]),
    ensures
        digit_run_end(m, i) == e,
    decreases e - i,
{
    if i < e {
        lemma_digit_run(m, i + 1, e);
    }
}

/// A subrange known to equal a concatenation splits into the two
/// corresponding subranges.
pub proof fn lemma_subrange_split(m: Seq<u8>, i: int, a: Seq<u8>, b: Seq<u8>)
    requires
        0 <= i,
        i + a.len() + b.len() <= m.len(),
        m.subrange(i, i + a.len() + b.len()) == a + b,
    ensures
        m.subrange(i, i + a.len()) == a,
        m.subrange(i + a.len(), i + a.len() + b.len()) == b,
{
    let w = m.subrange(i, i + a.len() + b.len());
    assert(m.subrange(i, i + a.len()) =~= a) by {
        assert forall|q: int| 0 <= q < a.len() implies m.subrange(i, i + a.len() as int)[q] == a[q]
        by {
            assert(m.subrange(i, i + a.len() as int)[q] == m[i + q]);
            assert(w[q] == m[i + q]);
            assert(w[q] == (a + b)[q]);
        }
    }
    assert(m.subrange(i + a.len(), i + a.len() + b.len()) =~= b) by {
        assert forall|q: int|
            0 <= q < b.len() implies m.subrange(
            i + a.len() as int,
            i + a.len() + b.len(),
        )[q] == b[q] by {
            assert(m.subrange(i + a.len() as int, i + a.len() + b.len())[q] == m[i + a.len() + q]);
            assert(w[a.len() + q] == m[i + (a.len() + q)]);
            assert(m[i + (a.len() + q)] == m[i + a.len() + q]);
            assert(w[a.len() + q] == (a + b)[a.len() + q]);
        }
    }
}

/// Reading back the digits that `dec_digits` rendered yields the original
/// value.
proof fn lemma_digits_value_of_enc(m: Seq<u8>, i: int, n: nat)
    requires
        0 <= i,
        i + dec_digits(n).len() <= m.len(),
        m.subrange(i, i + dec_digits(n).len()) == dec_digits(n),
    ensures
        digits_value(m, i, i + dec_digits(n).len()) == n,
    decreases n,
{
    let d = dec_digits(n);
    let l = d.len() as int;
    if n < 10 {
        assert(m.subrange(i, i + 1)[0] == m[i]);
        assert(m[i] == (48 + n) as u8);
        assert(digits_value(m, i, i + 1) == digits_value(m, i, i) * 10 + digit_val(m[i]));
    } else {
        let dp = dec_digits(n / 10);
        let lp = dp.len() as int;
        let last = (48 + n % 10) as u8;
        assert(d == dp.push(last));
        assert(d =~= dp + seq![last]);
        assert(i + lp + 1 == i + l);
        assert(m.subrange(i, i + lp + seq![last].len()) == dp + seq![last]);
        lemma_subrange_split(m, i, dp, seq![last]);
        lemma_digits_value_of_enc(m, i, n / 10);
        assert(m.subrange(i + lp, i + l)[0] == m[i + lp]);
        assert(m[i + l - 1] == last);
        assert(digit_val(last) == n % 10);
        assert(digits_value(m, i, i + l) == digits_value(m, i, i + l - 1) * 10 + digit_val(
            m[i + l - 1],
        ));
        vstd::arithmetic::div_mod::lemma_fundamental_div_mod(n as int, 10);
    }
}

/// Decoding the rendering of a well-formed identifier yields it back.
proof fn lemma_parse_source_name_of_enc(m: Seq<u8>, i: int, v: Seq<u8>)
    requires
        0 <= i,
        crate::symbol::wf_ident(v),
        i + dec_digits(v.len()).len() + v.len() <= m.len(),
        m.subrange(i, i + dec_digits(v.len()).len() + v.len()) == dec_digits(v.len()) + v,
    ensures
        parse_source_name_at(m, i) == Ok::<_, SymbolError>((
            v,
            i + dec_digits(v.len()).len() + v.len(),
        )),
{
    let dd = dec_digits(v.len());
    let l = dd.len() as int;
    let nv = v.len() as int;
    lemma_dec_digits_props(v.len());
    lemma_subrange_split(m, i, dd, v);
    // The length digits.
    assert(forall|k: int| i <= k < i + l ==> is_digit(#[trigger] m[k])) by {
        assert forall|k: int| i <= k < i + l implies is_digit(#[trigger] m[k]) by {
            assert(m.subrange(i, i + l)[k - i] == m[k]);
            assert(dd[k - i] == m[k]);
        }
    }
    assert(m.subrange(i + l, i + l + nv)[0] == m[i + l]);
    assert(m[i + l] == v[0]);
    assert(!is_digit(m[i + l]));
    lemma_digit_run(m, i, i + l);
    lemma_digits_value_of_enc(m, i, v.len());
    assert(m.subrange(i, i + l)[0] == m[i]);
    assert(m[i] == dd[0]);
    assert(is_digit(m[i]) && m[i] != 48);
    // The identifier bytes.
    assert(forall|k: int| i + l <= k < i + l + nv ==> is_ident_byte(#[trigger] m[k])) by {
        assert forall|k: int| i + l <= k < i + l + nv implies is_ident_byte(#[trigger] m[k]) by {
            assert(m.subrange(i + l, i + l + nv)[k - i - l] == m[k]);
            assert(v[k - i - l] == m[k]);
        }
    }
}

/// First byte of a type encoding: always `v`, `m` or `P`.
proof fn lemma_enc_type_first(t: Type)
    ensures
        enc_type(t).len() >= 1,
        enc_type(t)[0] == 118 || enc_type(t)[0] == 109 || enc_type(t)[0] == 80,
{
}

/// Decoding the rendering of one type yields it back.
proof fn lemma_parse_type_of_enc(m: Seq<u8>, i: int, t: Type)
    requires
        0 <= i,
        i + enc_type(t).len() <= m.len(),
        m.subrange(i, i + enc_type(t).len()) == enc_type(t),
    ensures
        parse_type_at(m, i) == Ok::<_, SymbolError>((t, i + enc_type(t).len())),
    decreases t,
{
    let e = enc_type(t);
    let l = e.len() as int;
    match t {
        Type::Void => {
            assert(m.subrange(i, i + 1)[0] == m[i]);
            assert(m[i] == 118);
        }
        Type::Ulong => {
            assert(m.subrange(i, i + 1)[0] == m[i]);
            assert(m[i] == 109);
        }
        Type::Ptr { c, t: p } => {
            let ep = enc_type(*p);
            lemma_enc_type_first(*p);
            let head: Seq<u8> = if c {
                seq![80u8, 75u8]
            } else {
                seq![80u8]
            };
            let hl = head.len() as int;
            assert(m.subrange(i, i + head.len() + ep.len()) == head + ep);
            lemma_subrange_split(m, i, head, ep);
            assert(m.subrange(i, i + hl)[0] == m[i]);
            assert(m[i] == 80);
            assert(m.subrange(i + hl, i + hl + ep.len())[0] == m[i + hl]);
            if c {
                assert(m.subrange(i, i + hl)[1] == m[i + 1]);
                assert(m[i + 1] == 75);
                lemma_parse_type_of_enc(m, i + 2, *p);
            } else {
                assert(m[i + 1] == ep[0]);
                assert(m[i + 1] != 75);
                lemma_parse_type_of_enc(m, i + 1, *p);
            }
        }
    }
}

/// Decoding the rendering of a type list that fills the rest of the input
/// yields it back.
pub proof fn lemma_parse_types_of_enc(m: Seq<u8>, i: int, ts: Seq<Type>)
    requires
        0 <= i <= m.len(),
        i + enc_types(ts).len() == m.len(),
        m.subrange(i, m.len() as int) == enc_types(ts),
    ensures
        parse_types_at(m, i) == Ok::<_, SymbolError>(ts),
    decreases ts.len(),
{
    if ts.len() == 0 {
        assert(ts =~= Seq::<Type>::empty());
    } else {
        let t0 = ts[0];
        let tail = ts.drop_first();
        let e0 = enc_type(t0);
        let l0 = e0.len() as int;
        assert(enc_types(ts) == e0 + enc_types(tail));
        assert(m.subrange(i, i + e0.len() + enc_types(tail).len()) == e0 + enc_types(tail));
        lemma_subrange_split(m, i, e0, enc_types(tail));
        lemma_parse_type_of_enc(m, i, t0);
        lemma_enc_type_first(t0);
        assert(m.subrange(i + l0, m.len() as int) == enc_types(tail));
        lemma_parse_types_of_enc(m, i + l0, tail);
        assert(seq![t0] + tail =~= ts);
    }
}

/// Decoding the rendering of a well-formed segment list followed by the
/// closing `E` yields it back.
pub proof fn lemma_parse_segments_of_enc(m: Seq<u8>, i: int, ss: Seq<SegView>)
    requires
        0 <= i,
        i + enc_segs(ss).len() + 1 <= m.len(),
        m.subrange(i, i + enc_segs(ss).len() + 1) == enc_segs(ss) + seq![69u8],
        forall|k: int| 0 <= k < ss.len() ==> crate::symbol::wf_seg(#[trigger] ss[k]),
    ensures
        parse_segments_at(m, i) == Ok::<_, SymbolError>((ss, i + enc_segs(ss).len() + 1)),
    decreases ss.len(),
{
    let e = enc_segs(ss);
    let l = e.len() as int;
    if ss.len() == 0 {
        assert(m.subrange(i, i + 1)[0] == m[i]);
        assert(m[i] == 69);
        assert(ss =~= Seq::<SegView>::empty());
    } else {
        let s0 = ss[0];
        let tail = ss.drop_first();
        let e0 = enc_seg(s0);
        let l0 = e0.len() as int;
        let etail = enc_segs(tail) + seq![69u8];
        assert(e == e0 + enc_segs(tail));
        assert(e + seq![69u8] =~= e0 + etail);
        assert(m.subrange(i, i + e0.len() + etail.len()) == e0 + etail);
        lemma_subrange_split(m, i, e0, etail);
        let i2 = i + l0;
        assert(m.subrange(i2, i2 + enc_segs(tail).len() + 1) == etail);
        assert(forall|k: int| 0 <= k < tail.len() ==> crate::symbol::wf_seg(#[trigger] tail[k]));
        match s0 {
            SegView::Ident(v) => {
                assert(crate::symbol::wf_seg(ss[0]));
                assert(m.subrange(i, i + dec_digits(v.len()).len() + v.len()) == dec_digits(
                    v.len(),
                ) + v);
                lemma_parse_source_name_of_enc(m, i, v);
                lemma_parse_segments_of_enc(m, i2, tail);
                assert(seq![SegView::Ident(v)] + tail =~= ss);
            }
            SegView::TemplateArg(v) => {
                assert(crate::symbol::wf_seg(ss[0]));
                let dd = dec_digits(v.len());
                let dl = dd.len() as int;
                assert(e0 =~= seq![73u8] + ((dd + v) + seq![69u8]));
                assert(m.subrange(i, i + seq![73u8].len() + ((dd + v) + seq![69u8]).len())
                    == seq![73u8] + ((dd + v) + seq![69u8]));
                lemma_subrange_split(m, i, seq![73u8], (dd + v) + seq![69u8]);
                assert(m.subrange(i, i + 1)[0] == m[i]);
                assert(m[i] == 73);
                assert(m.subrange(i + 1, i + 1 + (dd + v).len() + seq![69u8].len()) == (dd + v)
                    + seq![69u8]);
                lemma_subrange_split(m, i + 1, dd + v, seq![69u8]);
                assert(m.subrange(i + 1, i + 1 + dd.len() + v.len()) == dd + v);
                lemma_parse_source_name_of_enc(m, i + 1, v);
                let q = i + 1 + dl + v.len() as int;
                assert(m.subrange(q, q + 1)[0] == m[q]);
                assert(m[q] == 69);
                lemma_dec_digits_props(v.len());
                assert(m.subrange(i + 1, i + 1 + dd.len() + v.len())[0] == m[i + 1]);
                assert(is_digit(m[i + 1]));
                assert(parse_template_args_at(m, q) == Ok::<_, SymbolError>((Seq::<SegView>::empty(), i2)));
                assert(parse_template_args_at(m, i + 1) == Ok::<_, SymbolError>((
                    seq![SegView::TemplateArg(v)],
                    i2,
                ))) by {
                    assert(seq![SegView::TemplateArg(v)] + Seq::<SegView>::empty() =~= seq![
                        SegView::TemplateArg(v),
                    ]);
                }
                assert(!is_digit(m[i]) && m[i] != 69);
                lemma_parse_segments_of_enc(m, i2, tail);
                assert(seq![SegView::TemplateArg(v)] + tail =~= ss);
            }
            SegView::Ctor => {
                assert(m.subrange(i, i + 2)[0] == m[i]);
                assert(m.subrange(i, i + 2)[1] == m[i + 1]);
                assert(m[i] == 67 && m[i + 1] == 49);
                lemma_parse_segments_of_enc(m, i2, tail);
                assert(seq![SegView::Ctor] + tail =~= ss);
            }
            SegView::Dtor => {
                assert(m.subrange(i, i + 2)[0] == m[i]);
                assert(m.subrange(i, i + 2)[1] == m[i + 1]);
                assert(m[i] == 68 && m[i + 1] == 49);
                lemma_parse_segments_of_enc(m, i2, tail);
                assert(seq![SegView::Dtor] + tail =~= ss);
            }
            SegView::New => {
                assert(m.subrange(i, i + 2)[0] == m[i]);
                assert(m.subrange(i, i + 2)[1] == m[i + 1]);
                assert(m[i] == 110 && m[i + 1] == 119);
                lemma_parse_segments_of_enc(m, i2, tail);
                assert(seq![SegView::New] + tail =~= ss);
            }
            SegView::Delete => {
                assert(m.subrange(i, i + 2)[0] == m[i]);
                assert(m.subrange(i, i + 2)[1] == m[i + 1]);
                assert(m[i] == 100 && m[i + 1] == 108);
                lemma_parse_segments_of_enc(m, i2, tail);
                assert(seq![SegView::Delete] + tail =~= ss);
            }
        }
    }
}

/// Parse a length-prefixed source name.
fn parse_source_name(m: &[u8], i: usize) -> (r: Result<(Vec<u8>, usize), SymbolError>)
    requires
        i <= m@.len(),
    ensures
        match r {
            Ok((v, j)) => parse_source_name_at(m@, i as int) == Ok::<_, SymbolError>((v@, j as int))
                && i < j <= m@.len(),
            Err(e) => parse_source_name_at(m@, i as int) == Err::<(Seq<u8>, int), _>(e),
        },
{
    proof {
        lemma_digit_run_end(m@, i as int);
    }
    let ghost dre = digit_run_end(m@, i as int);
    if i >= m.len() {
        return Err(SymbolError::UnknownSymbol);
    }
    let b = *slice_index_get(m, i);
    if !(48 <= b && b <= 57) {
        return Err(SymbolError::UnknownSymbol);
    }
    if b == 48 {
        return Err(SymbolError::UnknownSymbol);
    }
    // Scan the digit run, accumulating its value and refusing overflow.
    let mut j: usize = i;
    let mut n: usize = 0;
    loop
        invariant
            i <= j <= dre <= m@.len() <= usize::MAX,
            i < m@.len(),
            is_digit(m@[i as int]),
            dre == digit_run_end(m@, i as int),
            n == digits_value(m@, i as int, j as int),
            forall|k: int| i <= k < dre ==> is_digit(#[trigger] m@[k]),
            dre == m@.len() || !is_digit(m@[dre]),
        ensures
            j == dre,
            n == digits_value(m@, i as int, dre),
        decreases m@.len() - j,
    {
        if j >= m.len() {
            proof {
                assert(j == dre);
            }
            break;
        }
        let b2 = *slice_index_get(m, j);
        if !(48 <= b2 && b2 <= 57) {
            proof {
                assert(j == dre);
            }
            break;
        }
        proof {
            assert(j < dre);
        }
        let d = (b2 - 48) as usize;
        if n > (usize::MAX - d) / 10 {
            // The declared length cannot even fit the machine, so it
            // certainly exceeds the remaining input.
            proof {
                assert(n * 10 + d > usize::MAX) by (nonlinear_arith)
                    requires
                        n > (usize::MAX - d) / 10,
                        d <= 9,
                ;
                assert(digits_value(m@, i as int, j + 1) == n * 10 + d);
                lemma_digits_value_mono(m@, i as int, j + 1, dre);
                assert(digits_value(m@, i as int, dre) > usize::MAX);
                assert(dre + digits_value(m@, i as int, dre) > m@.len());
            }
            return Err(SymbolError::UnknownSymbol);
        }
        n = n * 10 + d;
        j += 1;
    }
    // j == dre, n == value of the whole run.
    proof {
        assert(i < dre);
    }
    if n > m.len() - j {
        return Err(SymbolError::UnknownSymbol);
    }
    let mut v: Vec<u8> = Vec::new();
    let mut k: usize = j;
    while k < j + n
        invariant
            j <= k <= j + n <= m@.len() <= usize::MAX,
            v@ == m@.subrange(j as int, k as int),
            n == digits_value(m@, i as int, j as int),
            i < j <= m@.len(),
            j == digit_run_end(m@, i as int),
            forall|q: int| j <= q < k ==> is_ident_byte(#[trigger] m@[q]),
        decreases j + n - k,
    {
        let b3 = *slice_index_get(m, k);
        if !((97 <= b3 && b3 <= 122) || (65 <= b3 && b3 <= 90) || (48 <= b3 && b3 <= 57) || b3
            == 95) {
            proof {
                assert(!is_ident_byte(m@[k as int]));
            }
            return Err(SymbolError::UnknownSymbol);
        }
        v.push(b3);
        proof {
            assert(m@.subrange(j as int, k + 1) =~= m@.subrange(j as int, k as int).push(
                m@[k as int],
            ));
        }
        k += 1;
    }
    proof {
        assert(parse_source_name_at(m@, i as int) == Ok::<_, SymbolError>((
            m@.subrange(j as int, j + n),
            j + n,
        )));
    }
    Ok((v, j + n))
}

/// Parse a template-argument group after its opening `I`.
fn parse_template_args(m: &[u8], i: usize) -> (r: Result<(Vec<Segment>, usize), SymbolError>)
    requires
        i <= m@.len(),
    ensures
        match r {
            Ok((ss, j)) => parse_template_args_at(m@, i as int) == Ok::<_, SymbolError>((
                ss@.map_values(|s: Segment| s@),
                j as int,
            )) && i < j <= m@.len(),
            Err(e) => parse_template_args_at(m@, i as int) == Err::<(Seq<SegView>, int), _>(e),
        },
    decreases m@.len() - i,
{
    if i >= m.len() {
        return Err(SymbolError::UnknownSymbol);
    }
    let b = *slice_index_get(m, i);
    if b == 69 {
        let ss: Vec<Segment> = Vec::new();
        proof {
            assert(ss@.map_values(|s: Segment| s@) =~= Seq::<SegView>::empty());
        }
        return Ok((ss, i + 1));
    }
    if 48 <= b && b <= 57 {
        match parse_source_name(m, i) {
            Err(e) => Err(e),
            Ok((v, j)) => match parse_template_args(m, j) {
                Err(e) => Err(e),
                Ok((mut rest, k)) => {
                    let ghost rest0 = rest@;
                    rest.insert(0, Segment::TemplateArg(TemplateArg::Ident(v)));
                    proof {
                        assert(rest@.map_values(|s: Segment| s@) =~= seq![
                            SegView::TemplateArg(v@),
                        ] + rest0.map_values(|s: Segment| s@));
                    }
                    Ok((rest, k))
                }
            },
        }
    } else {
        Err(SymbolError::UnknownSymbol)
    }
}

/// Parse the segments of a nested name, up to the closing `E`.
fn parse_nested_name(m: &[u8], i: usize) -> (r: Result<(Vec<Segment>, usize), SymbolError>)
    requires
        i <= m@.len(),
    ensures
        match r {
            Ok((ss, j)) => parse_segments_at(m@, i as int) == Ok::<_, SymbolError>((
                ss@.map_values(|s: Segment| s@),
                j as int,
            )) && i < j <= m@.len(),
            Err(e) => parse_segments_at(m@, i as int) == Err::<(Seq<SegView>, int), _>(e),
        },
    decreases m@.len() - i,
{
    if i >= m.len() {
        return Err(SymbolError::UnknownSymbol);
    }
    let b = *slice_index_get(m, i);
    if b == 69 {
        let ss: Vec<Segment> = Vec::new();
        proof {
            assert(ss@.map_values(|s: Segment| s@) =~= Seq::<SegView>::empty());
        }
        return Ok((ss, i + 1));
    }
    if 48 <= b && b <= 57 {
        return match parse_source_name(m, i) {
            Err(e) => Err(e),
            Ok((v, j)) => match parse_nested_name(m, j) {
                Err(e) => Err(e),
                Ok((mut rest, k)) => {
                    let ghost rest0 = rest@;
                    rest.insert(0, Segment::Ident(v));
                    proof {
                        assert(rest@.map_values(|s: Segment| s@) =~= seq![SegView::Ident(v@)]
                            + rest0.map_values(|s: Segment| s@));
                    }
                    Ok((rest, k))
                }
            },
        };
    }
    if b == 73 {
        return match parse_template_args(m, i + 1) {
            Err(e) => Err(e),
            Ok((mut tas, j)) => match parse_nested_name(m, j) {
                Err(e) => Err(e),
                Ok((mut rest, k)) => {
                    let ghost tas0 = tas@;
                    let ghost rest0 = rest@;
                    tas.append(&mut rest);
                    proof {
                        assert(tas@.map_values(|s: Segment| s@) =~= tas0.map_values(
                            |s: Segment| s@,
                        ) + rest0.map_values(|s: Segment| s@));
                    }
                    Ok((tas, k))
                }
            },
        };
    }
    let (second, seg): (u8, Segment) = if b == 67 {
        (49, Segment::Ctor)
    } else if b == 68 {
        (49, Segment::Dtor)
    } else if b == 110 {
        (119, Segment::New)
    } else if b == 100 {
        (108, Segment::Delete)
    } else {
        return Err(SymbolError::UnknownSymbol);
    };
    if i + 1 < m.len() && *slice_index_get(m, i + 1) == second {
        match parse_nested_name(m, i + 2) {
            Err(e) => Err(e),
            Ok((mut rest, k)) => {
                let ghost rest0 = rest@;
                let ghost segv = seg@;
                rest.insert(0, seg);
                proof {
                    assert(rest@.map_values(|s: Segment| s@) =~= seq![segv] + rest0.map_values(
                        |s: Segment| s@,
                    ));
                }
                Ok((rest, k))
            }
        }
    } else {
        Err(SymbolError::UnknownSymbol)
    }
}

/// Parse one parameter type.
fn parse_type(m: &[u8], i: usize) -> (r: Result<(Type, usize), SymbolError>)
    requires
        i <= m@.len(),
    ensures
        match r {
            Ok((t, j)) => parse_type_at(m@, i as int) == Ok::<_, SymbolError>((t, j as int)) && i
                < j <= m@.len(),
            Err(e) => parse_type_at(m@, i as int) == Err::<(Type, int), _>(e),
        },
    decreases m@.len() - i,
{
    if i >= m.len() {
        return Err(SymbolError::UnknownSymbol);
    }
    let b = *slice_index_get(m, i);
    if b == 118 {
        Ok((Type::Void, i + 1))
    } else if b == 109 {
        Ok((Type::Ulong, i + 1))
    } else if b == 80 {
        if i + 1 < m.len() && *slice_index_get(m, i + 1) == 75 {
            match parse_type(m, i + 2) {
                Err(e) => Err(e),
                Ok((t, j)) => Ok((Type::Ptr { c: true, t: Box::new(t) }, j)),
            }
        } else {
            match parse_type(m, i + 1) {
                Err(e) => Err(e),
                Ok((t, j)) => Ok((Type::Ptr { c: false, t: Box::new(t) }, j)),
            }
        }
    } else {
        Err(SymbolError::UnknownSymbol)
    }
}

/// Parse all parameter types up to the end of the input.
fn parse_types(m: &[u8], i: usize) -> (r: Result<Vec<Type>, SymbolError>)
    requires
        i <= m@.len(),
    ensures
        match r {
            Ok(ts) => parse_types_at(m@, i as int) == Ok::<_, SymbolError>(ts@),
            Err(e) => parse_types_at(m@, i as int) == Err::<Seq<Type>, _>(e),
        },
    decreases m@.len() - i,
{
    if i >= m.len() {
        let ts: Vec<Type> = Vec::new();
        proof {
            assert(ts@ =~= Seq::<Type>::empty());
        }
        return Ok(ts);
    }
    match parse_type(m, i) {
        Err(e) => Err(e),
        Ok((t, j)) => match parse_types(m, j) {
            Err(e) => Err(e),
            Ok(mut rest) => {
                let ghost rest0 = rest@;
                rest.insert(0, t);
                proof {
                    assert(rest@ =~= seq![t] + rest0);
                }
                Ok(rest)
            }
        },
    }
}

/// Decode a mangled name whose prefix has already been stripped.
pub fn parse(mangled: &[u8]) -> (r: Result<Symbol, SymbolError>)
    ensures
        match r {
            Ok(s) => parse_spec(mangled@) == Ok::<_, SymbolError>(s@),
            Err(e) => parse_spec(mangled@) == Err::<SymbolView, _>(e),
        },
{
    if mangled.len() == 0 || *slice_index_get(mangled, 0) != 78 {
        return Err(SymbolError::UnknownSymbol);
    }
    match parse_nested_name(mangled, 1) {
        Err(e) => Err(e),
        Ok((segs, j)) => match parse_types(mangled, j) {
            Err(e) => Err(e),
            Ok(ts) => {
                let sig = if ts.len() == 0 {
                    None
                } else {
                    Some(crate::symbol::Signature::new(ts))
                };
                Ok(Symbol::new(crate::symbol::Name::Nested(segs), sig))
            }
        },
    }
}

} // verus!
