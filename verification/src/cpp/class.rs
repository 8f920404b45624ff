//! Parser for the class-declaration grammar.
//!
//! The surface accepted is `class <Name> { [public:|private:]
//! [<Name> ( <params> ) ;]* } ;`. Constructor lines may carry a
//! parameter list (with an optional trailing comma); each parameter is
//! kept as its raw text. Any other member line is an explicit
//! unsupported-member error, and every error carries the byte offset of
//! the offending token.

use crate::symbol::{is_digit, is_ident_byte};
use vstd::prelude::*;
use vstd::slice::slice_index_get;

verus! {

/// Accessibility of a member.
#[derive(Debug, PartialEq, Eq, Clone, Copy)]
pub enum Accessibility {
    Public,
    Private,
}

/// Member of a class other than a constructor. No member kind is
/// supported yet: the grammar refuses every such line, so the parser
/// never produces a value of this type.
#[derive(Debug, PartialEq, Eq, Clone, Copy)]
pub enum Member {
    Unsupported,
}

/// Constructor of a class: its accessibility, its parameters as raw
/// text, and the byte offset of its name for diagnostics.
#[derive(Debug, PartialEq, Eq)]
pub struct Ctor {
    pub access: Accessibility,
    pub params: Vec<Vec<u8>>,
    pub span: usize,
}

/// A parsed class declaration.
#[derive(Debug, PartialEq, Eq)]
pub struct Class {
    pub name: Vec<u8>,
    pub ctors: Vec<Ctor>,
    pub members: Vec<Member>,
}

/// Mathematical value of a [`Ctor`].
pub struct CtorView {
    pub access: Accessibility,
    pub params: Seq<Seq<u8>>,
    pub span: usize,
}

/// Mathematical value of a [`Class`].
pub struct ClassView {
    pub name: Seq<u8>,
    pub ctors: Seq<CtorView>,
}

impl View for Ctor {
    type V = CtorView;

    open spec fn view(&self) -> CtorView {
        CtorView {
            access: self.access,
            params: self.params@.map_values(|p: Vec<u8>| p@),
            span: self.span,
        }
    }
}

impl View for Class {
    type V = ClassView;

    open spec fn view(&self) -> ClassView {
        ClassView { name: self.name@, ctors: self.ctors@.map_values(|c: Ctor| c@) }
    }
}

/// What a declaration failed to provide, at [`DeclError::offset`].
#[derive(Debug, PartialEq, Eq, Clone, Copy)]
pub enum DeclErrorKind {
    ExpectedClass,
    ExpectedName,
    ExpectedBody,
    ExpectedMember,
    UnsupportedMember,
    ExpectedColon,
    ExpectedParen,
    ExpectedParam,
    ExpectedSemicolon,
    ExpectedEnd,
}

/// A declaration-grammar error with the byte offset of the offending
/// source position.
#[derive(Debug, PartialEq, Eq, Clone, Copy)]
pub struct DeclError {
    pub offset: usize,
    pub kind: DeclErrorKind,
}

/// An insignificant byte: space, tab, line feed or carriage return.
pub open spec fn is_ws(b: u8) -> bool {
    b == 32 || b == 9 || b == 10 || b == 13
}

/// First position at or after `i` holding a significant byte.
pub open spec fn skip_ws(m: Seq<u8>, i: int) -> int
    decreases m.len() - i,
    when 0 <= i <= m.len()
{
    if i < m.len() && is_ws(m[i]) {
        skip_ws(m, i + 1)
    } else {
        i
    }
}

/// End of the identifier run starting at `i`.
pub open spec fn ident_end(m: Seq<u8>, i: int) -> int
    decreases m.len() - i,
    when 0 <= i <= m.len()
{
    if i < m.len() && is_ident_byte(m[i]) {
        ident_end(m, i + 1)
    } else {
        i
    }
}

/// An identifier at `i`: a letter or underscore, then letters, digits
/// and underscores.
pub open spec fn parse_ident_at(m: Seq<u8>, i: int) -> Option<(Seq<u8>, int)> {
    if 0 <= i < m.len() && is_ident_byte(m[i]) && !is_digit(m[i]) {
        Some((m.subrange(i, ident_end(m, i)), ident_end(m, i)))
    } else {
        None
    }
}

/// First position at or after `i` holding a parameter delimiter: a comma
/// or a closing parenthesis.
pub open spec fn param_end(m: Seq<u8>, i: int) -> int
    decreases m.len() - i,
    when 0 <= i <= m.len()
{
    if i < m.len() && m[i] != 44 && m[i] != 41 {
        param_end(m, i + 1)
    } else {
        i
    }
}

/// The text with its trailing insignificant bytes removed.
pub open spec fn trim_trailing(s: Seq<u8>) -> Seq<u8>
    decreases s.len(),
{
    if s.len() > 0 && is_ws(s.last()) {
        trim_trailing(s.drop_last())
    } else {
        s
    }
}

/// The bytes of the keyword `class`.
pub open spec fn kw_class() -> Seq<u8> {
    seq![99u8, 108u8, 97u8, 115u8, 115u8]
}

/// The bytes of the keyword `public`.
pub open spec fn kw_public() -> Seq<u8> {
    seq![112u8, 117u8, 98u8, 108u8, 105u8, 99u8]
}

/// The bytes of the keyword `private`.
pub open spec fn kw_private() -> Seq<u8> {
    seq![112u8, 114u8, 105u8, 118u8, 97u8, 116u8, 101u8]
}

/// A parameter list from just after its first parameter's start: one raw
/// parameter text, then either the closing parenthesis, a separating
/// comma, or a trailing comma before the closing parenthesis.
pub open spec fn parse_param_list_at(m: Seq<u8>, i: int) -> Result<(Seq<Seq<u8>>, int), DeclError>
    decreases m.len() - i,
    when 0 <= i <= m.len()
{
    let e = param_end(m, i);
    if !(i <= e < m.len()) {
        Err(DeclError { offset: m.len() as usize, kind: DeclErrorKind::ExpectedParen })
    } else {
        let p = trim_trailing(m.subrange(i, e));
        if p.len() == 0 {
            Err(DeclError { offset: i as usize, kind: DeclErrorKind::ExpectedParam })
        } else if m[e] == 41 {
            Ok((seq![p], e + 1))
        } else {
            let k = skip_ws(m, e + 1);
            if !(i < k && k <= m.len()) {
                Err(DeclError { offset: m.len() as usize, kind: DeclErrorKind::ExpectedParen })
            } else if k == m.len() {
                Err(DeclError { offset: m.len() as usize, kind: DeclErrorKind::ExpectedParen })
            } else if m[k] == 41 {
                Ok((seq![p], k + 1))
            } else {
                match parse_param_list_at(m, k) {
                    Err(err) => Err(err),
                    Ok((rest, q)) => Ok((seq![p] + rest, q)),
                }
            }
        }
    }
}

/// A parameter list from just after its opening parenthesis, possibly
/// empty, up to and including the closing parenthesis.
pub open spec fn parse_params_at(m: Seq<u8>, i: int) -> Result<(Seq<Seq<u8>>, int), DeclError>
    recommends
        0 <= i <= m.len(),
{
    let j = skip_ws(m, i);
    if !(0 <= j < m.len()) {
        Err(DeclError { offset: m.len() as usize, kind: DeclErrorKind::ExpectedParen })
    } else if m[j] == 41 {
        Ok((Seq::empty(), j + 1))
    } else {
        parse_param_list_at(m, j)
    }
}

/// The members of a class body from `i` on, ending at the closing brace
/// and the semicolon after it. Accessibility labels set the current
/// accessibility; a line naming the class is a constructor; any other
/// member is unsupported.
pub open spec fn parse_body_at(m: Seq<u8>, i: int, name: Seq<u8>, access: Accessibility) -> Result<
    (Seq<CtorView>, int),
    DeclError,
>
    decreases m.len() - i,
    when 0 <= i <= m.len()
{
    let j = skip_ws(m, i);
    if j >= m.len() {
        Err(DeclError { offset: m.len() as usize, kind: DeclErrorKind::ExpectedMember })
    } else if m[j] == 125 {
        let k = skip_ws(m, j + 1);
        if k < m.len() && m[k] == 59 {
            Ok((Seq::empty(), k + 1))
        } else {
            Err(DeclError { offset: k as usize, kind: DeclErrorKind::ExpectedSemicolon })
        }
    } else {
        match parse_ident_at(m, j) {
            None => Err(DeclError { offset: j as usize, kind: DeclErrorKind::ExpectedMember }),
            Some((w, e)) => if w == kw_public() || w == kw_private() {
                let k = skip_ws(m, e);
                if k < m.len() && m[k] == 58 {
                    let acc = if w == kw_public() {
                        Accessibility::Public
                    } else {
                        Accessibility::Private
                    };
                    if i < k + 1 <= m.len() {
                        parse_body_at(m, k + 1, name, acc)
                    } else {
                        Err(DeclError { offset: k as usize, kind: DeclErrorKind::ExpectedColon })
                    }
                } else {
                    Err(DeclError { offset: k as usize, kind: DeclErrorKind::ExpectedColon })
                }
            } else if w == name {
                let k = skip_ws(m, e);
                if !(k < m.len() && m[k] == 40) {
                    Err(DeclError { offset: k as usize, kind: DeclErrorKind::ExpectedParen })
                } else {
                    match parse_params_at(m, k + 1) {
                        Err(err) => Err(err),
                        Ok((ps, q)) => {
                            let z = skip_ws(m, q);
                            if !(0 <= q <= m.len() && z < m.len() && m[z] == 59) {
                                Err(
                                    DeclError {
                                        offset: if 0 <= z <= m.len() {
                                            z as usize
                                        } else {
                                            m.len() as usize
                                        },
                                        kind: DeclErrorKind::ExpectedSemicolon,
                                    },
                                )
                            } else if i < z + 1 <= m.len() {
                                match parse_body_at(m, z + 1, name, access) {
                                    Err(err) => Err(err),
                                    Ok((rest, end)) => Ok(
                                        (
                                            seq![
                                                CtorView {
                                                    access,
                                                    params: ps,
                                                    span: j as usize,
                                                },
                                            ] + rest,
                                            end,
                                        ),
                                    ),
                                }
                            } else {
                                Err(
                                    DeclError {
                                        offset: z as usize,
                                        kind: DeclErrorKind::ExpectedSemicolon,
                                    },
                                )
                            }
                        }
                    }
                }
            } else {
                Err(DeclError { offset: j as usize, kind: DeclErrorKind::UnsupportedMember })
            },
        }
    }
}

/// One class declaration at `i` (a significant position): the keyword,
/// the name, the braced body and the final semicolon.
pub open spec fn parse_class_at(m: Seq<u8>, i: int) -> Result<(ClassView, int), DeclError>
    recommends
        0 <= i <= m.len(),
{
    match parse_ident_at(m, i) {
        None => Err(DeclError { offset: i as usize, kind: DeclErrorKind::ExpectedClass }),
        Some((w, e)) => if w != kw_class() {
            Err(DeclError { offset: i as usize, kind: DeclErrorKind::ExpectedClass })
        } else {
            let j = skip_ws(m, e);
            match parse_ident_at(m, j) {
                None => Err(DeclError { offset: j as usize, kind: DeclErrorKind::ExpectedName }),
                Some((name, e2)) => {
                    let k = skip_ws(m, e2);
                    if !(k < m.len() && m[k] == 123) {
                        Err(DeclError { offset: k as usize, kind: DeclErrorKind::ExpectedBody })
                    } else {
                        match parse_body_at(m, k + 1, name, Accessibility::Private) {
                            Err(err) => Err(err),
                            Ok((ctors, end)) => Ok((ClassView { name, ctors }, end)),
                        }
                    }
                }
            }
        },
    }
}

/// All class declarations of a source text, in order.
pub open spec fn parse_decls_at(m: Seq<u8>, i: int) -> Result<Seq<ClassView>, DeclError>
    decreases m.len() - i,
    when 0 <= i <= m.len()
{
    let j = skip_ws(m, i);
    if j >= m.len() {
        Ok(Seq::empty())
    } else {
        match parse_class_at(m, j) {
            Err(err) => Err(err),
            Ok((c, end)) => if i < end <= m.len() {
                match parse_decls_at(m, end) {
                    Err(err) => Err(err),
                    Ok(rest) => Ok(seq![c] + rest),
                }
            } else {
                Err(DeclError { offset: m.len() as usize, kind: DeclErrorKind::ExpectedEnd })
            },
        }
    }
}

/// First significant position at or after `i`.
pub(crate) fn scan_ws(m: &[u8], i: usize) -> (r: usize)
    requires
        i <= m@.len(),
    ensures
        r == skip_ws(m@, i as int),
        i <= r <= m@.len(),
    decreases m@.len() - i,
{
    if i < m.len() {
        let b = *slice_index_get(m, i);
        if b == 32 || b == 9 || b == 10 || b == 13 {
            return scan_ws(m, i + 1);
        }
    }
    i
}

/// End of the identifier run starting at `i`.
fn scan_ident_end(m: &[u8], i: usize) -> (r: usize)
    requires
        i <= m@.len(),
    ensures
        r == ident_end(m@, i as int),
        i <= r <= m@.len(),
    decreases m@.len() - i,
{
    if i < m.len() {
        let b = *slice_index_get(m, i);
        if (97 <= b && b <= 122) || (65 <= b && b <= 90) || (48 <= b && b <= 57) || b == 95 {
            return scan_ident_end(m, i + 1);
        }
    }
    i
}

/// First parameter delimiter at or after `i`.
fn scan_param_end(m: &[u8], i: usize) -> (r: usize)
    requires
        i <= m@.len(),
    ensures
        r == param_end(m@, i as int),
        i <= r <= m@.len(),
    decreases m@.len() - i,
{
    if i < m.len() {
        let b = *slice_index_get(m, i);
        if b != 44 && b != 41 {
            return scan_param_end(m, i + 1);
        }
    }
    i
}

/// Copy `m[i..e]` and drop its trailing insignificant bytes.
fn take_param(m: &[u8], i: usize, e: usize) -> (r: Vec<u8>)
    requires
        i <= e <= m@.len(),
    ensures
        r@ == trim_trailing(m@.subrange(i as int, e as int)),
{
    let mut out: Vec<u8> = Vec::new();
    let mut q: usize = i;
    while q < e
        invariant
            i <= q <= e <= m@.len(),
            out@ == m@.subrange(i as int, q as int),
        decreases e - q,
    {
        out.push(*slice_index_get(m, q));
        proof {
            assert(m@.subrange(i as int, q + 1) =~= m@.subrange(i as int, q as int).push(
                m@[q as int],
            ));
        }
        q += 1;
    }
    loop
        invariant
            trim_trailing(out@) == trim_trailing(m@.subrange(i as int, e as int)),
        ensures
            out@ == trim_trailing(m@.subrange(i as int, e as int)),
        decreases out@.len(),
    {
        if out.len() == 0 {
            break;
        }
        let b = out[out.len() - 1];
        if !(b == 32 || b == 9 || b == 10 || b == 13) {
            break;
        }
        let ghost before = out@;
        out.pop();
        proof {
            assert(out@ =~= before.drop_last());
        }
    }
    out
}

/// An identifier at `i`, as owned bytes with the position after it.
fn parse_ident(m: &[u8], i: usize) -> (r: Option<(Vec<u8>, usize)>)
    requires
        i <= m@.len(),
    ensures
        match r {
            Some((v, e)) => parse_ident_at(m@, i as int) == Some((v@, e as int)) && i < e
                <= m@.len(),
            None => parse_ident_at(m@, i as int) == None::<(Seq<u8>, int)>,
        },
{
    if i >= m.len() {
        return None;
    }
    let b = *slice_index_get(m, i);
    let starts = ((97 <= b && b <= 122) || (65 <= b && b <= 90) || b == 95);
    if !starts {
        return None;
    }
    let e = scan_ident_end(m, i + 1);
    proof {
        assert(ident_end(m@, i as int) == ident_end(m@, i + 1));
    }
    let mut v: Vec<u8> = Vec::new();
    let mut q: usize = i;
    while q < e
        invariant
            i <= q <= e <= m@.len(),
            v@ == m@.subrange(i as int, q as int),
        decreases e - q,
    {
        v.push(*slice_index_get(m, q));
        proof {
            assert(m@.subrange(i as int, q + 1) =~= m@.subrange(i as int, q as int).push(
                m@[q as int],
            ));
        }
        q += 1;
    }
    Some((v, e))
}

/// The bytes are the keyword `class`.
fn is_kw_class(v: &Vec<u8>) -> (r: bool)
    ensures
        r == (v@ == kw_class()),
{
    let r = v.len() == 5 && v[0] == 99 && v[1] == 108 && v[2] == 97 && v[3] == 115 && v[4] == 115;
    proof {
        if r {
            assert(v@ =~= kw_class());
        } else {
            assert(v@ != kw_class());
        }
    }
    r
}

/// The bytes are the keyword `public`.
fn is_kw_public(v: &Vec<u8>) -> (r: bool)
    ensures
        r == (v@ == kw_public()),
{
    let r = v.len() == 6 && v[0] == 112 && v[1] == 117 && v[2] == 98 && v[3] == 108 && v[4] == 105
        && v[5] == 99;
    proof {
        if r {
            assert(v@ =~= kw_public());
        } else {
            assert(v@ != kw_public());
        }
    }
    r
}

/// The bytes are the keyword `private`.
fn is_kw_private(v: &Vec<u8>) -> (r: bool)
    ensures
        r == (v@ == kw_private()),
{
    let r = v.len() == 7 && v[0] == 112 && v[1] == 114 && v[2] == 105 && v[3] == 118 && v[4] == 97
        && v[5] == 116 && v[6] == 101;
    proof {
        if r {
            assert(v@ =~= kw_private());
        } else {
            assert(v@ != kw_private());
        }
    }
    r
}

/// Parse a parameter list from the first parameter's start.
fn parse_param_list(m: &[u8], i: usize) -> (r: Result<(Vec<Vec<u8>>, usize), DeclError>)
    requires
        i <= m@.len(),
    ensures
        match r {
            Ok((ps, q)) => parse_param_list_at(m@, i as int) == Ok::<_, DeclError>((
                ps@.map_values(|p: Vec<u8>| p@),
                q as int,
            )) && i < q <= m@.len(),
            Err(e) => parse_param_list_at(m@, i as int) == Err::<(Seq<Seq<u8>>, int), _>(e),
        },
    decreases m@.len() - i,
{
    let e = scan_param_end(m, i);
    if e >= m.len() {
        return Err(DeclError { offset: m.len(), kind: DeclErrorKind::ExpectedParen });
    }
    let p = take_param(m, i, e);
    if p.len() == 0 {
        return Err(DeclError { offset: i, kind: DeclErrorKind::ExpectedParam });
    }
    if *slice_index_get(m, e) == 41 {
        let mut ps: Vec<Vec<u8>> = Vec::new();
        let ghost pv = p@;
        ps.push(p);
        proof {
            assert(ps@.map_values(|x: Vec<u8>| x@) =~= seq![pv]);
        }
        return Ok((ps, e + 1));
    }
    let k = scan_ws(m, e + 1);
    if k == m.len() {
        return Err(DeclError { offset: m.len(), kind: DeclErrorKind::ExpectedParen });
    }
    if *slice_index_get(m, k) == 41 {
        let mut ps: Vec<Vec<u8>> = Vec::new();
        let ghost pv = p@;
        ps.push(p);
        proof {
            assert(ps@.map_values(|x: Vec<u8>| x@) =~= seq![pv]);
        }
        return Ok((ps, k + 1));
    }
    match parse_param_list(m, k) {
        Err(err) => Err(err),
        Ok((mut rest, q)) => {
            let ghost pv = p@;
            let ghost rest0 = rest@;
            rest.insert(0, p);
            proof {
                assert(rest@.map_values(|x: Vec<u8>| x@) =~= seq![pv] + rest0.map_values(
                    |x: Vec<u8>| x@,
                ));
            }
            Ok((rest, q))
        }
    }
}

/// Parse a parameter list from just after its opening parenthesis.
fn parse_params(m: &[u8], i: usize) -> (r: Result<(Vec<Vec<u8>>, usize), DeclError>)
    requires
        i <= m@.len(),
    ensures
        match r {
            Ok((ps, q)) => parse_params_at(m@, i as int) == Ok::<_, DeclError>((
                ps@.map_values(|p: Vec<u8>| p@),
                q as int,
            )) && i < q <= m@.len(),
            Err(e) => parse_params_at(m@, i as int) == Err::<(Seq<Seq<u8>>, int), _>(e),
        },
{
    let j = scan_ws(m, i);
    if j >= m.len() {
        return Err(DeclError { offset: m.len(), kind: DeclErrorKind::ExpectedParen });
    }
    if *slice_index_get(m, j) == 41 {
        let ps: Vec<Vec<u8>> = Vec::new();
        proof {
            assert(ps@.map_values(|x: Vec<u8>| x@) =~= Seq::<Seq<u8>>::empty());
        }
        return Ok((ps, j + 1));
    }
    parse_param_list(m, j)
}

/// Parse the members of a class body from `i` on.
fn parse_body(m: &[u8], i: usize, name: &Vec<u8>, access: Accessibility) -> (r: Result<
    (Vec<Ctor>, usize),
    DeclError,
>)
    requires
        i <= m@.len(),
    ensures
        match r {
            Ok((cs, end)) => parse_body_at(m@, i as int, name@, access) == Ok::<_, DeclError>((
                cs@.map_values(|c: Ctor| c@),
                end as int,
            )) && i < end <= m@.len(),
            Err(e) => parse_body_at(m@, i as int, name@, access) == Err::<(Seq<CtorView>, int), _>(
                e,
            ),
        },
    decreases m@.len() - i,
{
    let j = scan_ws(m, i);
    if j >= m.len() {
        return Err(DeclError { offset: m.len(), kind: DeclErrorKind::ExpectedMember });
    }
    if *slice_index_get(m, j) == 125 {
        let k = scan_ws(m, j + 1);
        if k < m.len() && *slice_index_get(m, k) == 59 {
            let cs: Vec<Ctor> = Vec::new();
            proof {
                assert(cs@.map_values(|c: Ctor| c@) =~= Seq::<CtorView>::empty());
            }
            return Ok((cs, k + 1));
        }
        return Err(DeclError { offset: k, kind: DeclErrorKind::ExpectedSemicolon });
    }
    let (w, e) = match parse_ident(m, j) {
        Some(x) => x,
        None => {
            return Err(DeclError { offset: j, kind: DeclErrorKind::ExpectedMember });
        }
    };
    if is_kw_public(&w) || is_kw_private(&w) {
        let k = scan_ws(m, e);
        if k < m.len() && *slice_index_get(m, k) == 58 {
            let acc = if is_kw_public(&w) {
                Accessibility::Public
            } else {
                Accessibility::Private
            };
            return parse_body(m, k + 1, name, acc);
        }
        return Err(DeclError { offset: k, kind: DeclErrorKind::ExpectedColon });
    }
    if crate::meta::bytes_eq(w.as_slice(), name.as_slice()) {
        let k = scan_ws(m, e);
        if !(k < m.len() && *slice_index_get(m, k) == 40) {
            return Err(DeclError { offset: k, kind: DeclErrorKind::ExpectedParen });
        }
        match parse_params(m, k + 1) {
            Err(err) => Err(err),
            Ok((ps, q)) => {
                let z = scan_ws(m, q);
                if !(z < m.len() && *slice_index_get(m, z) == 59) {
                    return Err(DeclError { offset: z, kind: DeclErrorKind::ExpectedSemicolon });
                }
                match parse_body(m, z + 1, name, access) {
                    Err(err) => Err(err),
                    Ok((mut rest, end)) => {
                        let ghost rest0 = rest@;
                        let ghost psv = ps@.map_values(|p: Vec<u8>| p@);
                        let c = Ctor { access, params: ps, span: j };
                        let ghost cv = c@;
                        rest.insert(0, c);
                        proof {
                            assert(rest@.map_values(|x: Ctor| x@) =~= seq![cv] + rest0.map_values(
                                |x: Ctor| x@,
                            ));
                        }
                        Ok((rest, end))
                    }
                }
            }
        }
    } else {
        Err(DeclError { offset: j, kind: DeclErrorKind::UnsupportedMember })
    }
}

/// Parse one class declaration at a significant position `i`.
pub(crate) fn parse_class(m: &[u8], i: usize) -> (r: Result<(Class, usize), DeclError>)
    requires
        i <= m@.len(),
    ensures
        match r {
            Ok((c, end)) => parse_class_at(m@, i as int) == Ok::<_, DeclError>((c@, end as int))
                && i < end <= m@.len() && c@.name.len() > 0,
            Err(e) => parse_class_at(m@, i as int) == Err::<(ClassView, int), _>(e),
        },
{
    let (w, e) = match parse_ident(m, i) {
        Some(x) => x,
        None => {
            return Err(DeclError { offset: i, kind: DeclErrorKind::ExpectedClass });
        }
    };
    if !is_kw_class(&w) {
        return Err(DeclError { offset: i, kind: DeclErrorKind::ExpectedClass });
    }
    let j = scan_ws(m, e);
    let (name, e2) = match parse_ident(m, j) {
        Some(x) => x,
        None => {
            return Err(DeclError { offset: j, kind: DeclErrorKind::ExpectedName });
        }
    };
    let k = scan_ws(m, e2);
    if !(k < m.len() && *slice_index_get(m, k) == 123) {
        return Err(DeclError { offset: k, kind: DeclErrorKind::ExpectedBody });
    }
    match parse_body(m, k + 1, &name, Accessibility::Private) {
        Err(err) => Err(err),
        Ok((ctors, end)) => {
            proof {
                assert(name@.len() > 0);
            }
            Ok((Class { name, ctors, members: Vec::new() }, end))
        }
    }
}

impl Class {
    /// Parse exactly one class declaration, allowing only insignificant
    /// bytes around it.
    pub fn parse(src: &[u8]) -> (r: Result<Class, DeclError>)
        ensures
            match r {
                Ok(c) => {
                    let j = skip_ws(src@, 0);
                    &&& j < src@.len()
                    &&& parse_class_at(src@, j) matches Ok((cv, end)) && cv == c@ && skip_ws(
                        src@,
                        end,
                    ) == src@.len()
                    &&& c@.name.len() > 0
                },
                Err(e) => {
                    let j = skip_ws(src@, 0);
                    if j >= src@.len() {
                        e.kind == DeclErrorKind::ExpectedClass
                    } else {
                        match parse_class_at(src@, j) {
                            Err(e2) => e == e2,
                            Ok((cv, end)) => e.kind == DeclErrorKind::ExpectedEnd && skip_ws(
                                src@,
                                end,
                            ) < src@.len(),
                        }
                    }
                },
            },
    {
        let j = scan_ws(src, 0);
        if j >= src.len() {
            return Err(DeclError { offset: j, kind: DeclErrorKind::ExpectedClass });
        }
        match parse_class(src, j) {
            Err(err) => Err(err),
            Ok((c, end)) => {
                let z = scan_ws(src, end);
                if z < src.len() {
                    return Err(DeclError { offset: z, kind: DeclErrorKind::ExpectedEnd });
                }
                Ok(c)
            }
        }
    }
}

} // verus!
