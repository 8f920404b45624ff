//! Binding generation: joining parsed declarations with discovered
//! metadata.
//!
//! [`generate`] resolves a class's size and alignment facts in the
//! registry and produces a [`GeneratedBinding`]: the storage layout, the
//! deterministic wrapper and entry-point names, and the mangled symbol
//! each entry point is bound to. Only zero-parameter constructors are
//! supported; a parameterized constructor is an explicit unsupported-
//! signature error, never a silent omission.

use crate::meta::Metadata;
use crate::meta::TypeInfo;
use crate::symbol::{
    dec_digits, decode_spec, encode_spec, lemma_round_trip, wf_ident, wf_seg, Name, NameView,
    SegView, Segment, Signature, Symbol, SymbolError, SymbolView, Type,
};
use vstd::prelude::*;

pub mod class;

pub use self::class::{
    Accessibility, Class, ClassView, Ctor, CtorView, DeclError, DeclErrorKind, Member,
};

verus! {

/// One constructor's generated artifacts: the wrapper method name, the
/// foreign entry-point name, and the mangled symbol it is bound to.
#[derive(Debug, PartialEq, Eq)]
pub struct CtorBinding {
    pub wrapper: Vec<u8>,
    pub ffi: Vec<u8>,
    pub symbol: Vec<u8>,
}

/// Mathematical value of a [`CtorBinding`].
pub struct CtorBindingView {
    pub wrapper: Seq<u8>,
    pub ffi: Seq<u8>,
    pub symbol: Seq<u8>,
}

impl View for CtorBinding {
    type V = CtorBindingView;

    open spec fn view(&self) -> CtorBindingView {
        CtorBindingView { wrapper: self.wrapper@, ffi: self.ffi@, symbol: self.symbol@ }
    }
}

/// The binding plan generated for one class: an exactly sized and
/// aligned storage type, one binding per declared constructor, and the
/// destructor entry point.
#[derive(Debug, PartialEq, Eq)]
pub struct GeneratedBinding {
    pub class: Vec<u8>,
    pub size: usize,
    pub align: usize,
    pub memory_name: Vec<u8>,
    pub ctors: Vec<CtorBinding>,
    pub dtor_ffi: Vec<u8>,
    pub dtor_symbol: Vec<u8>,
}

/// Mathematical value of a [`GeneratedBinding`].
pub struct BindingView {
    pub class: Seq<u8>,
    pub size: usize,
    pub align: usize,
    pub memory_name: Seq<u8>,
    pub ctors: Seq<CtorBindingView>,
    pub dtor_ffi: Seq<u8>,
    pub dtor_symbol: Seq<u8>,
}

impl View for GeneratedBinding {
    type V = BindingView;

    open spec fn view(&self) -> BindingView {
        BindingView {
            class: self.class@,
            size: self.size,
            align: self.align,
            memory_name: self.memory_name@,
            ctors: self.ctors@.map_values(|c: CtorBinding| c@),
            dtor_ffi: self.dtor_ffi@,
            dtor_symbol: self.dtor_symbol@,
        }
    }
}

/// Failure to generate a binding for one class.
#[derive(Debug, PartialEq, Eq)]
pub enum GenError {
    /// The registry has no entry for the class.
    TypeInfoMissing(Vec<u8>),
    /// The class's entry is missing its size fact.
    SizeMissing(Vec<u8>),
    /// The class's entry is missing its alignment fact.
    AlignMissing(Vec<u8>),
    /// The constructor at this position has parameters, which generation
    /// does not support yet.
    UnsupportedSignature(usize),
}

/// Mathematical value of a [`GenError`].
pub enum GenErrorView {
    TypeInfoMissing(Seq<u8>),
    SizeMissing(Seq<u8>),
    AlignMissing(Seq<u8>),
    UnsupportedSignature(usize),
}

impl View for GenError {
    type V = GenErrorView;

    open spec fn view(&self) -> GenErrorView {
        match self {
            GenError::TypeInfoMissing(c) => GenErrorView::TypeInfoMissing(c@),
            GenError::SizeMissing(c) => GenErrorView::SizeMissing(c@),
            GenError::AlignMissing(c) => GenErrorView::AlignMissing(c@),
            GenError::UnsupportedSignature(i) => GenErrorView::UnsupportedSignature(*i),
        }
    }
}

/// The bytes of the wrapper-method stem, `new`.
pub open spec fn kw_new() -> Seq<u8> {
    seq![110u8, 101u8, 119u8]
}

/// The bytes of the constructor entry-point infix, `_ctor`.
pub open spec fn kw_under_ctor() -> Seq<u8> {
    seq![95u8, 99u8, 116u8, 111u8, 114u8]
}

/// The bytes of the destructor entry-point suffix, `_dtor`.
pub open spec fn kw_under_dtor() -> Seq<u8> {
    seq![95u8, 100u8, 116u8, 111u8, 114u8]
}

/// The bytes of the storage-type suffix for capitalized class names,
/// `Memory`.
pub open spec fn kw_memory_camel() -> Seq<u8> {
    seq![77u8, 101u8, 109u8, 111u8, 114u8, 121u8]
}

/// The bytes of the storage-type suffix for other class names,
/// `_memory`.
pub open spec fn kw_memory_snake() -> Seq<u8> {
    seq![95u8, 109u8, 101u8, 109u8, 111u8, 114u8, 121u8]
}

/// Wrapper-method name of the `i`-th constructor, counted from one:
/// `new<i>`.
pub open spec fn ctor_wrapper_name(i: int) -> Seq<u8> {
    kw_new() + dec_digits(i as nat)
}

/// Entry-point name of the `i`-th constructor, counted from one:
/// `<Class>_ctor<i>`.
pub open spec fn ctor_ffi_name(class: Seq<u8>, i: int) -> Seq<u8> {
    class + kw_under_ctor() + dec_digits(i as nat)
}

/// Destructor entry-point name: `<Class>_dtor`.
pub open spec fn dtor_ffi_name(class: Seq<u8>) -> Seq<u8> {
    class + kw_under_dtor()
}

/// Storage-type name: `<Class>Memory` when the class name starts with an
/// upper-case letter, `<class>_memory` otherwise.
pub open spec fn memory_type_name(class: Seq<u8>) -> Seq<u8> {
    if class.len() > 0 && 65 <= class[0] <= 90 {
        class + kw_memory_camel()
    } else {
        class + kw_memory_snake()
    }
}

/// The symbol of a class's constructor: the class name and the
/// constructor marker, with the `[Void]` signature placeholder.
pub open spec fn ctor_symbol_view(class: Seq<u8>) -> SymbolView {
    SymbolView {
        name: NameView::Nested(seq![SegView::Ident(class), SegView::Ctor]),
        sig: Some(seq![Type::Void]),
    }
}

/// The symbol of a class's destructor, built the same way with the
/// destructor marker.
pub open spec fn dtor_symbol_view(class: Seq<u8>) -> SymbolView {
    SymbolView {
        name: NameView::Nested(seq![SegView::Ident(class), SegView::Dtor]),
        sig: Some(seq![Type::Void]),
    }
}

/// The symbols built by the generator's name-building paths round-trip:
/// for any well-formed class name, the constructor and destructor
/// symbols decode back to themselves from their encodings.
pub proof fn lemma_generated_symbols_round_trip(class: Seq<u8>)
    requires
        wf_ident(class),
    ensures
        decode_spec(encode_spec(ctor_symbol_view(class))) == Ok::<_, SymbolError>(
            ctor_symbol_view(class),
        ),
        decode_spec(encode_spec(dtor_symbol_view(class))) == Ok::<_, SymbolError>(
            dtor_symbol_view(class),
        ),
{
    let cs = seq![SegView::Ident(class), SegView::Ctor];
    let ds = seq![SegView::Ident(class), SegView::Dtor];
    assert forall|i: int| 0 <= i < cs.len() implies wf_seg(#[trigger] cs[i]) by {
        if i == 0 {
            assert(cs[0] == SegView::Ident(class));
        } else {
            assert(cs[1] == SegView::Ctor);
        }
    }
    assert forall|i: int| 0 <= i < ds.len() implies wf_seg(#[trigger] ds[i]) by {
        if i == 0 {
            assert(ds[0] == SegView::Ident(class));
        } else {
            assert(ds[1] == SegView::Dtor);
        }
    }
    lemma_round_trip(ctor_symbol_view(class));
    lemma_round_trip(dtor_symbol_view(class));
}

/// Position of the first constructor with parameters, if any.
pub open spec fn first_parameterized(cs: Seq<CtorView>) -> Option<int>
    decreases cs.len(),
{
    if cs.len() == 0 {
        None
    } else if cs[0].params.len() > 0 {
        Some(0)
    } else {
        match first_parameterized(cs.drop_first()) {
            None => None,
            Some(j) => Some(j + 1),
        }
    }
}

/// What generation yields for one class against a registry: each missing
/// fact in lookup order, then the first unsupported constructor, then
/// the full binding plan.
pub open spec fn generate_spec(decl: ClassView, types: Map<Seq<u8>, TypeInfo>) -> Result<
    BindingView,
    GenErrorView,
> {
    if !types.contains_key(decl.name) {
        Err(GenErrorView::TypeInfoMissing(decl.name))
    } else {
        match types[decl.name].size {
            None => Err(GenErrorView::SizeMissing(decl.name)),
            Some(size) => match types[decl.name].align {
                None => Err(GenErrorView::AlignMissing(decl.name)),
                Some(align) => match first_parameterized(decl.ctors) {
                    Some(i) => Err(GenErrorView::UnsupportedSignature(i as usize)),
                    None => Ok(
                        BindingView {
                            class: decl.name,
                            size,
                            align,
                            memory_name: memory_type_name(decl.name),
                            ctors: Seq::new(
                                decl.ctors.len(),
                                |i: int|
                                    CtorBindingView {
                                        wrapper: ctor_wrapper_name(i + 1),
                                        ffi: ctor_ffi_name(decl.name, i + 1),
                                        symbol: encode_spec(ctor_symbol_view(decl.name)),
                                    },
                            ),
                            dtor_ffi: dtor_ffi_name(decl.name),
                            dtor_symbol: encode_spec(dtor_symbol_view(decl.name)),
                        },
                    ),
                },
            },
        }
    }
}

/// What generating every declaration yields: the plans in declaration
/// order, or the first class's error.
pub open spec fn render_spec(ds: Seq<ClassView>, types: Map<Seq<u8>, TypeInfo>) -> Result<
    Seq<BindingView>,
    GenErrorView,
>
    decreases ds.len(),
{
    if ds.len() == 0 {
        Ok(Seq::empty())
    } else {
        match generate_spec(ds[0], types) {
            Err(e) => Err(e),
            Ok(b) => match render_spec(ds.drop_first(), types) {
                Err(e) => Err(e),
                Ok(rest) => Ok(seq![b] + rest),
            },
        }
    }
}

/// A prefix of constructors all without parameters and one with them
/// locates the first parameterized constructor.
proof fn lemma_first_parameterized_at(cs: Seq<CtorView>, i: int)
    requires
        0 <= i < cs.len(),
        cs[i].params.len() > 0,
        forall|q: int| 0 <= q < i ==> #[trigger] cs[q].params.len() == 0,
    ensures
        first_parameterized(cs) == Some(i),
    decreases i,
{
    if i > 0 {
        lemma_first_parameterized_at(cs.drop_first(), i - 1);
    }
}

/// Constructors all without parameters have no parameterized one.
proof fn lemma_first_parameterized_none(cs: Seq<CtorView>)
    requires
        forall|q: int| 0 <= q < cs.len() ==> #[trigger] cs[q].params.len() == 0,
    ensures
        first_parameterized(cs) == None::<int>,
    decreases cs.len(),
{
    if cs.len() > 0 {
        lemma_first_parameterized_none(cs.drop_first());
    }
}

/// The class name with a suffix and an optional decimal counter.
fn name_with_suffix(class: &Vec<u8>, suffix: &[u8], counter: usize) -> (r: Vec<u8>)
    ensures
        counter > 0 ==> r@ == class@ + suffix@ + dec_digits(counter as nat),
        counter == 0 ==> r@ == class@ + suffix@,
{
    let mut out = crate::meta::clone_bytes(class);
    let mut i: usize = 0;
    while i < suffix.len()
        invariant
            i <= suffix@.len(),
            out@ == class@ + suffix@.take(i as int),
        decreases suffix@.len() - i,
    {
        out.push(*vstd::slice::slice_index_get(suffix, i));
        proof {
            assert(class@ + suffix@.take(i + 1) =~= (class@ + suffix@.take(i as int)).push(
                suffix@[i as int],
            ));
        }
        i += 1;
    }
    proof {
        assert(suffix@.take(suffix@.len() as int) =~= suffix@);
    }
    if counter > 0 {
        crate::symbol::push_decimal(&mut out, counter);
    }
    out
}

/// The encoded constructor symbol of a class.
fn ctor_symbol_bytes(class: &Vec<u8>) -> (r: Vec<u8>)
    ensures
        r@ == encode_spec(ctor_symbol_view(class@)),
{
    let mut segs: Vec<Segment> = Vec::new();
    segs.push(Segment::Ident(crate::meta::clone_bytes(class)));
    segs.push(Segment::Ctor);
    let mut params: Vec<Type> = Vec::new();
    params.push(Type::Void);
    let ghost segsv = segs@.map_values(|s: Segment| s@);
    let ghost paramsv = params@;
    let sym = Symbol::new(Name::Nested(segs), Some(Signature::new(params)));
    proof {
        assert(segsv =~= seq![SegView::Ident(class@), SegView::Ctor]);
        assert(paramsv =~= seq![Type::Void]);
        assert(sym@.name == NameView::Nested(segsv));
        assert(sym@.sig == Some(paramsv));
        assert(sym@ == ctor_symbol_view(class@));
    }
    sym.to_itanium()
}

/// The encoded destructor symbol of a class.
fn dtor_symbol_bytes(class: &Vec<u8>) -> (r: Vec<u8>)
    ensures
        r@ == encode_spec(dtor_symbol_view(class@)),
{
    let mut segs: Vec<Segment> = Vec::new();
    segs.push(Segment::Ident(crate::meta::clone_bytes(class)));
    segs.push(Segment::Dtor);
    let mut params: Vec<Type> = Vec::new();
    params.push(Type::Void);
    let ghost segsv = segs@.map_values(|s: Segment| s@);
    let ghost paramsv = params@;
    let sym = Symbol::new(Name::Nested(segs), Some(Signature::new(params)));
    proof {
        assert(segsv =~= seq![SegView::Ident(class@), SegView::Dtor]);
        assert(paramsv =~= seq![Type::Void]);
        assert(sym@.name == NameView::Nested(segsv));
        assert(sym@.sig == Some(paramsv));
        assert(sym@ == dtor_symbol_view(class@));
    }
    sym.to_itanium()
}

/// Generate the binding plan for one class against the registry: resolve
/// its size and alignment, refuse parameterized constructors, and bind
/// each entry point to its encoded symbol.
pub fn generate(decl: &Class, meta: &Metadata) -> (r: Result<GeneratedBinding, GenError>)
    ensures
        match r {
            Ok(b) => generate_spec(decl@, meta@) == Ok::<_, GenErrorView>(b@),
            Err(e) => generate_spec(decl@, meta@) == Err::<BindingView, _>(e@),
        },
{
    let info: TypeInfo = match meta.get_type(decl.name.as_slice()) {
        Some(i) => *i,
        None => {
            return Err(GenError::TypeInfoMissing(crate::meta::clone_bytes(&decl.name)));
        }
    };
    let size = match info.size {
        Some(v) => v,
        None => {
            return Err(GenError::SizeMissing(crate::meta::clone_bytes(&decl.name)));
        }
    };
    let align = match info.align {
        Some(v) => v,
        None => {
            return Err(GenError::AlignMissing(crate::meta::clone_bytes(&decl.name)));
        }
    };
    let ghost cvs = decl.ctors@.map_values(|c: Ctor| c@);
    let mut i: usize = 0;
    while i < decl.ctors.len()
        invariant
            i <= cvs.len(),
            cvs == decl.ctors@.map_values(|c: Ctor| c@),
            cvs.len() == decl.ctors@.len(),
            meta@.contains_key(decl@.name),
            meta@[decl@.name].size == Some(size),
            meta@[decl@.name].align == Some(align),
            forall|q: int| 0 <= q < i ==> #[trigger] cvs[q].params.len() == 0,
        decreases decl.ctors@.len() - i,
    {
        if decl.ctors[i].params.len() > 0 {
            proof {
                lemma_first_parameterized_at(cvs, i as int);
            }
            return Err(GenError::UnsupportedSignature(i));
        }
        i += 1;
    }
    proof {
        lemma_first_parameterized_none(cvs);
    }
    let ctor_sym = ctor_symbol_bytes(&decl.name);
    let mut ctors: Vec<CtorBinding> = Vec::new();
    let mut k: usize = 0;
    while k < decl.ctors.len()
        invariant
            k <= decl.ctors@.len(),
            ctor_sym@ == encode_spec(ctor_symbol_view(decl.name@)),
            ctors@.len() == k,
            forall|q: int|
                0 <= q < k ==> (#[trigger] ctors@[q])@ == (CtorBindingView {
                    wrapper: ctor_wrapper_name(q + 1),
                    ffi: ctor_ffi_name(decl.name@, q + 1),
                    symbol: encode_spec(ctor_symbol_view(decl.name@)),
                }),
        decreases decl.ctors@.len() - k,
    {
        let mut wrapper: Vec<u8> = Vec::new();
        wrapper.push(110);
        wrapper.push(101);
        wrapper.push(119);
        proof {
            assert(wrapper@ =~= kw_new());
        }
        crate::symbol::push_decimal(&mut wrapper, k + 1);
        let under_ctor: [u8; 5] = [95, 99, 116, 111, 114];
        let ffi = name_with_suffix(&decl.name, under_ctor.as_slice(), k + 1);
        proof {
            assert(under_ctor@ =~= kw_under_ctor());
        }
        let symbol = crate::meta::clone_bytes(&ctor_sym);
        ctors.push(CtorBinding { wrapper, ffi, symbol });

        k += 1;
    }
    let under_dtor: [u8; 5] = [95, 100, 116, 111, 114];
    let dtor_ffi = name_with_suffix(&decl.name, under_dtor.as_slice(), 0);
    proof {
        assert(under_dtor@ =~= kw_under_dtor());
    }
    let dtor_symbol = dtor_symbol_bytes(&decl.name);
    let first_upper = decl.name.len() > 0 && 65 <= decl.name[0] && decl.name[0] <= 90;
    let memory_name = if first_upper {
        let camel: [u8; 6] = [77, 101, 109, 111, 114, 121];
        proof {
            assert(camel@ =~= kw_memory_camel());
        }
        name_with_suffix(&decl.name, camel.as_slice(), 0)
    } else {
        let snake: [u8; 7] = [95, 109, 101, 109, 111, 114, 121];
        proof {
            assert(snake@ =~= kw_memory_snake());
        }
        name_with_suffix(&decl.name, snake.as_slice(), 0)
    };
    let b = GeneratedBinding {
        class: crate::meta::clone_bytes(&decl.name),
        size,
        align,
        memory_name,
        ctors,
        dtor_ffi,
        dtor_symbol,
    };
    proof {
        assert(b@.ctors =~= Seq::new(
            decl@.ctors.len(),
            |i: int|
                CtorBindingView {
                    wrapper: ctor_wrapper_name(i + 1),
                    ffi: ctor_ffi_name(decl.name@, i + 1),
                    symbol: encode_spec(ctor_symbol_view(decl.name@)),
                },
        ));
    }
    Ok(b)
}

/// The declarations of one source text, in order.
#[derive(Debug, PartialEq, Eq)]
pub struct Declarations {
    pub classes: Vec<Class>,
}

impl View for Declarations {
    type V = Seq<ClassView>;

    open spec fn view(&self) -> Seq<ClassView> {
        self.classes@.map_values(|c: Class| c@)
    }
}

impl Declarations {
    /// Parse every class declaration of a source text.
    pub fn parse(src: &[u8]) -> (r: Result<Declarations, DeclError>)
        ensures
            match r {
                Ok(ds) => self::class::parse_decls_at(src@, 0) == Ok::<_, DeclError>(ds@),
                Err(e) => self::class::parse_decls_at(src@, 0) == Err::<Seq<ClassView>, _>(e),
            },
    {
        match parse_decls(src, 0) {
            Ok(cs) => Ok(Declarations { classes: cs }),
            Err(e) => Err(e),
        }
    }
}

/// Parse the class declarations from `i` on.
fn parse_decls(m: &[u8], i: usize) -> (r: Result<Vec<Class>, DeclError>)
    requires
        i <= m@.len(),
    ensures
        match r {
            Ok(cs) => self::class::parse_decls_at(m@, i as int) == Ok::<_, DeclError>(
                cs@.map_values(|c: Class| c@),
            ),
            Err(e) => self::class::parse_decls_at(m@, i as int) == Err::<Seq<ClassView>, _>(e),
        },
    decreases m@.len() - i,
{
    let j = self::class::scan_ws(m, i);
    if j >= m.len() {
        let cs: Vec<Class> = Vec::new();
        proof {
            assert(cs@.map_values(|c: Class| c@) =~= Seq::<ClassView>::empty());
        }
        return Ok(cs);
    }
    match self::class::parse_class(m, j) {
        Err(e) => Err(e),
        Ok((c, end)) => match parse_decls(m, end) {
            Err(e) => Err(e),
            Ok(mut rest) => {
                let ghost cv = c@;
                let ghost rest0 = rest@;
                rest.insert(0, c);
                proof {
                    assert(rest@.map_values(|x: Class| x@) =~= seq![cv] + rest0.map_values(
                        |x: Class| x@,
                    ));
                }
                Ok(rest)
            }
        },
    }
}

/// Generate the binding plan of every declaration, in order, stopping at
/// the first class that fails.
pub fn render(items: &Declarations, meta: &Metadata) -> (r: Result<Vec<GeneratedBinding>, GenError>)
    ensures
        match r {
            Ok(bs) => render_spec(items@, meta@) == Ok::<_, GenErrorView>(
                bs@.map_values(|b: GeneratedBinding| b@),
            ),
            Err(e) => render_spec(items@, meta@) == Err::<Seq<BindingView>, _>(e@),
        },
{
    let r = render_from(&items.classes, 0, meta);
    proof {
        assert(items.classes@.map_values(|c: Class| c@).skip(0) =~= items@);
    }
    r
}

/// Generate the binding plans from declaration `i` on.
fn render_from(cs: &Vec<Class>, i: usize, meta: &Metadata) -> (r: Result<
    Vec<GeneratedBinding>,
    GenError,
>)
    requires
        i <= cs@.len(),
    ensures
        match r {
            Ok(bs) => render_spec(cs@.map_values(|c: Class| c@).skip(i as int), meta@) == Ok::<
                _,
                GenErrorView,
            >(bs@.map_values(|b: GeneratedBinding| b@)),
            Err(e) => render_spec(cs@.map_values(|c: Class| c@).skip(i as int), meta@) == Err::<
                Seq<BindingView>,
                _,
            >(e@),
        },
    decreases cs@.len() - i,
{
    let ghost all = cs@.map_values(|c: Class| c@);
    if i == cs.len() {
        let bs: Vec<GeneratedBinding> = Vec::new();
        proof {
            assert(all.skip(i as int) =~= Seq::<ClassView>::empty());
            assert(bs@.map_values(|b: GeneratedBinding| b@) =~= Seq::<BindingView>::empty());
        }
        return Ok(bs);
    }
    proof {
        assert(all.skip(i as int)[0] == all[i as int]);
    }
    match generate(&cs[i], meta) {
        Err(e) => Err(e),
        Ok(b) => {
            let rr = render_from(cs, i + 1, meta);
            proof {
                assert(all.skip(i as int).drop_first() =~= all.skip(i + 1));
            }
            match rr {
                Err(e) => Err(e),
                Ok(mut rest) => {
                    let ghost bv = b@;
                    let ghost rest0 = rest@;
                    rest.insert(0, b);
                    proof {
                        assert(rest@.map_values(|x: GeneratedBinding| x@) =~= seq![bv]
                            + rest0.map_values(|x: GeneratedBinding| x@));
                    }
                    Ok(rest)
                }
            }
        },
    }
}

} // verus!
