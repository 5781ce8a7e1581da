//! The plain model of a type definition, its validation, and the scan of the
//! per-variant annotations that can mark one variant as the catch-all.

use vstd::prelude::*;

use crate::repr::{infer, infer_spec, ReprChoice};
use crate::resolve::{resolve_discriminants, resolved_at};

verus! {

/// What kind of data definition the input declares.
#[derive(Clone, Copy, Debug, PartialEq, Eq, Structural)]
pub enum DataShape {
    Enumeration,
    Record,
    Union,
}

/// The shape of one variant's payload.
#[derive(Clone, Copy, Debug, PartialEq, Eq, Structural)]
pub enum FieldsKind {
    Unit,
    Named,
    Unnamed,
}

/// The shape of one item inside a parenthesized annotation list: a bare
/// marker word, a `key = value` pair, or a parenthesized group.
#[derive(Clone, Copy, Debug, PartialEq, Eq, Structural)]
pub enum MetaKind {
    Marker,
    Value,
    List,
}

/// One item of a parenthesized annotation list, reduced to the name at its
/// head and its shape.
#[derive(Debug)]
pub struct MetaItem {
    pub name: String,
    pub kind: MetaKind,
}

/// One annotation, reduced to its namespace and, when it carries a
/// parenthesized list, the items of that list.
#[derive(Debug)]
pub struct RawAttr {
    pub namespace: String,
    pub items: Option<Vec<MetaItem>>,
}

/// One variant of the input definition, before validation.
#[derive(Debug)]
pub struct RawVariant {
    pub ident: String,
    pub fields: FieldsKind,
    pub attrs: Vec<RawAttr>,
    pub discriminant: Option<i64>,
}

/// A type definition as the host front end hands it over: name, shape,
/// whether it declares generic parameters or constraints, its variants in
/// declaration order, and its own annotations (among them the requested
/// representation).
#[derive(Debug)]
pub struct TypeDefinition {
    pub ident: String,
    pub shape: DataShape,
    pub is_generic: bool,
    pub variants: Vec<RawVariant>,
    pub attrs: Vec<RawAttr>,
}

impl TypeDefinition {
    /// The optional explicit discriminants, in declaration order.
    pub open spec fn discriminants(self) -> Seq<Option<i64>> {
        self.variants@.map_values(|v: RawVariant| v.discriminant)
    }

    /// Whether the variant at `i` carries named or positional fields.
    pub open spec fn variant_has_fields(self, i: int) -> bool {
        self.variants@[i].fields != FieldsKind::Unit
    }

    /// Whether any variant carries fields.
    pub open spec fn any_variant_has_fields(self) -> bool {
        exists|i: int| 0 <= i < self.variants@.len() && self.variant_has_fields(i)
    }

    /// The items of all of this definition's `repr` annotation lists.
    pub open spec fn repr_items(self) -> Seq<MetaItem> {
        repr_items_of(self.attrs@)
    }

    /// The first resolved discriminant, in declaration order.
    pub open spec fn lo(self) -> int {
        resolved_at(self.discriminants(), 0)
    }

    /// The last resolved discriminant, in declaration order.
    pub open spec fn hi(self) -> int {
        resolved_at(self.discriminants(), self.variants@.len() - 1)
    }

    /// Whether two distinct variants are both marked as the catch-all.
    pub open spec fn has_two_catch_alls(self) -> bool {
        exists|i: int, j: int|
            0 <= i < j < self.variants@.len() && self.variants@[i].is_catch_all_marked()
                && self.variants@[j].is_catch_all_marked()
    }
}

/// The flags gathered from one variant's annotations.
#[derive(Clone, Copy, Debug, PartialEq, Eq, Structural)]
pub struct VariantAttrs {
    pub is_default: bool,
}

/// A validated variant together with its resolved discriminant.
#[derive(Debug)]
pub struct Variant {
    pub ident: String,
    pub attrs: VariantAttrs,
    pub discriminant: Option<i64>,
    pub resolved: i128,
}

/// Whether an annotation list contains the bare catch-all marker. A
/// `key = value` item or a parenthesized group is never a marker, even under
/// the same name.
pub open spec fn has_other_marker(attr: RawAttr) -> bool {
    match attr.items {
        Some(items) => exists|i: int|
            0 <= i < items@.len() && items@[i].kind == MetaKind::Marker && items@[i].name@
                == "other"@,
        None => false,
    }
}

/// Whether an annotation belongs to the recognized namespace and contains
/// the catch-all marker.
pub open spec fn marks_catch_all(attr: RawAttr) -> bool {
    attr.namespace@ == "serde"@ && has_other_marker(attr)
}

impl RawVariant {
    /// Whether any annotation of this variant marks it as the catch-all.
    pub open spec fn is_catch_all_marked(self) -> bool {
        exists|i: int| 0 <= i < self.attrs@.len() && marks_catch_all(self.attrs@[i])
    }
}

/// Fold one recognized-namespace annotation into the flags: the bare
/// catch-all marker sets the flag, and every other item — a `key = value`
/// pair, a parenthesized group, or an unrelated marker — is ignored.
pub fn parse_serde_attr(attrs: &mut VariantAttrs, attr: &RawAttr)
    ensures
        final(attrs).is_default == (old(attrs).is_default || has_other_marker(*attr)),
{
    let other_name: String = "other".to_owned();
    match &attr.items {
        None => {},
        Some(items) => {
            let mut i: usize = 0;
            while i < items.len()
                invariant
                    i <= items@.len(),
                    attrs.is_default == (old(attrs).is_default || exists|j: int|
                        0 <= j < i && items@[j].kind == MetaKind::Marker && items@[j].name@
                            == "other"@),
                    other_name@ == "other"@,
                decreases items@.len() - i,
            {
                let item = &items[i];
                match item.kind {
                    MetaKind::Marker => {
                        if item.name == other_name {
                            attrs.is_default = true;
                        }
                    },
                    MetaKind::Value => {},
                    MetaKind::List => {},
                }
                i = i + 1;
            }
        },
    }
}

/// Gather the flags of one variant from its annotations: only the recognized
/// namespace is scanned, and everything else is ignored entirely.
pub fn parse_attrs(variant: &RawVariant) -> (r: VariantAttrs)
    ensures
        r.is_default == variant.is_catch_all_marked(),
{
    let serde_name: String = "serde".to_owned();
    let mut attrs = VariantAttrs { is_default: false };
    let mut i: usize = 0;
    while i < variant.attrs.len()
        invariant
            i <= variant.attrs@.len(),
            attrs.is_default == exists|j: int| 0 <= j < i && marks_catch_all(variant.attrs@[j]),
            serde_name@ == "serde"@,
        decreases variant.attrs@.len() - i,
    {
        let attr = &variant.attrs[i];
        if attr.namespace == serde_name {
            parse_serde_attr(&mut attrs, attr);
        }
        i = i + 1;
    }
    attrs
}

/// A construction-time failure: the definition cannot be given a codec.
/// `HasFields` carries the position of the first offending variant.
#[derive(Clone, Copy, Debug, PartialEq, Eq, Structural)]
pub enum ConstructError {
    NotAnEnum,
    HasFields(usize),
    Empty,
    Generic,
    MissingRepresentation,
    UnsupportedRange,
    MultipleCatchAll,
}

impl ConstructError {
    /// The message that surfaces to the author of the definition.
    pub open spec fn message_spec(self) -> Seq<char> {
        match self {
            ConstructError::NotAnEnum => "input must be an enum"@,
            ConstructError::HasFields(_) => "must be a unit variant to use serde_short derive"@,
            ConstructError::Empty => "there must be at least one variant"@,
            ConstructError::Generic => "generic enum is not supported"@,
            ConstructError::MissingRepresentation => "missing #[repr(...)] attribute"@,
            ConstructError::UnsupportedRange => "unsupported repr for serde_short enum"@,
            ConstructError::MultipleCatchAll => "only one variant can be #[serde(other)]"@,
        }
    }

    /// The message that surfaces to the author of the definition.
    pub fn message(&self) -> (r: String)
        ensures
            r@ == self.message_spec(),
    {
        match self {
            ConstructError::NotAnEnum => "input must be an enum".to_owned(),
            ConstructError::HasFields(_) => "must be a unit variant to use serde_short derive".to_owned(),
            ConstructError::Empty => "there must be at least one variant".to_owned(),
            ConstructError::Generic => "generic enum is not supported".to_owned(),
            ConstructError::MissingRepresentation => "missing #[repr(...)] attribute".to_owned(),
            ConstructError::UnsupportedRange => "unsupported repr for serde_short enum".to_owned(),
            ConstructError::MultipleCatchAll => "only one variant can be #[serde(other)]".to_owned(),
        }
    }
}

/// A representation mode that one `repr` annotation item declares: a fixed
/// width taken verbatim, or the platform-compatible marker that triggers
/// width inference.
#[derive(Clone, Copy, Debug, PartialEq, Eq, Structural)]
pub enum ReprMode {
    Fixed(ReprChoice),
    PlatformCompatible,
}

/// The items that `attr` contributes to the representation scan: the items
/// of its parenthesized list when it is a `repr` annotation, nothing
/// otherwise.
pub open spec fn repr_items_in(attr: RawAttr) -> Seq<MetaItem> {
    if attr.namespace@ == "repr"@ {
        match attr.items {
            Some(items) => items@,
            None => Seq::empty(),
        }
    } else {
        Seq::empty()
    }
}

/// The items of all parenthesized `repr` annotation lists, in order.
pub open spec fn repr_items_of(attrs: Seq<RawAttr>) -> Seq<MetaItem>
    decreases attrs.len(),
{
    if attrs.len() == 0 {
        Seq::empty()
    } else {
        repr_items_of(attrs.drop_last()) + repr_items_in(attrs.last())
    }
}

/// The representation mode a single `repr` item declares, or `None` when the
/// item is not a supported representation.
pub open spec fn recognize_repr_item(item: MetaItem) -> Option<ReprMode> {
    if item.kind != MetaKind::Marker {
        None
    } else if item.name@ == "C"@ {
        Some(ReprMode::PlatformCompatible)
    } else if item.name@ == "u8"@ {
        Some(ReprMode::Fixed(ReprChoice::U8))
    } else if item.name@ == "u16"@ {
        Some(ReprMode::Fixed(ReprChoice::U16))
    } else if item.name@ == "u32"@ {
        Some(ReprMode::Fixed(ReprChoice::U32))
    } else if item.name@ == "i8"@ {
        Some(ReprMode::Fixed(ReprChoice::I8))
    } else if item.name@ == "i16"@ {
        Some(ReprMode::Fixed(ReprChoice::I16))
    } else if item.name@ == "i32"@ {
        Some(ReprMode::Fixed(ReprChoice::I32))
    } else {
        None
    }
}

/// Whether every `repr` item declares a supported representation.
pub open spec fn all_repr_items_recognized(items: Seq<MetaItem>) -> bool {
    forall|i: int| 0 <= i < items.len() ==> recognize_repr_item(items[i]) is Some
}

/// Whether some `repr` item is the platform-compatible marker.
pub open spec fn has_platform_item(items: Seq<MetaItem>) -> bool {
    exists|i: int|
        0 <= i < items.len() && recognize_repr_item(items[i]) == Some(ReprMode::PlatformCompatible)
}

/// The representation that the scan of `items` settles on: the last
/// recognized item wins, with the platform-compatible marker standing for
/// the width inferred from the range `[lo, hi]`.
pub open spec fn repr_scan_choice(items: Seq<MetaItem>, lo: int, hi: int) -> Option<ReprChoice>
    decreases items.len(),
{
    if items.len() == 0 {
        None
    } else {
        match recognize_repr_item(items.last()) {
            Some(ReprMode::PlatformCompatible) => infer_spec(lo, hi),
            Some(ReprMode::Fixed(c)) => Some(c),
            None => repr_scan_choice(items.drop_last(), lo, hi),
        }
    }
}

/// The `repr` items split at `a`: what the attributes before `a` contribute,
/// followed by what the rest contribute.
pub proof fn lemma_repr_items_split(attrs: Seq<RawAttr>, a: int)
    requires
        0 <= a <= attrs.len(),
    ensures
        repr_items_of(attrs) == repr_items_of(attrs.take(a)) + repr_items_of(attrs.skip(a)),
    decreases attrs.len(),
{
    if a == attrs.len() {
        assert(attrs.take(a) =~= attrs);
        assert(attrs.skip(a) =~= Seq::<RawAttr>::empty());
        assert(repr_items_of(attrs) =~= repr_items_of(attrs.take(a)) + repr_items_of(
            attrs.skip(a),
        ));
    } else {
        let dl = attrs.drop_last();
        lemma_repr_items_split(dl, a);
        assert(dl.take(a) =~= attrs.take(a));
        assert(attrs.skip(a).drop_last() =~= dl.skip(a));
        assert(attrs.skip(a).last() == attrs.last());
        assert(repr_items_of(attrs) =~= repr_items_of(attrs.take(a)) + repr_items_of(
            attrs.skip(a),
        ));
    }
}

/// Extending the scanned prefix by one attribute appends exactly that
/// attribute's `repr` items.
pub proof fn lemma_repr_items_take_succ(attrs: Seq<RawAttr>, a: int)
    requires
        0 <= a < attrs.len(),
    ensures
        repr_items_of(attrs.take(a + 1)) == repr_items_of(attrs.take(a)) + repr_items_in(attrs[a]),
{
    let t = attrs.take(a + 1);
    assert(t.drop_last() =~= attrs.take(a));
    assert(t.last() == attrs[a]);
}

/// When every item is recognized and no platform-compatible marker is left
/// without an inferable width, a nonempty scan settles on some
/// representation.
pub proof fn lemma_scan_choice_some(items: Seq<MetaItem>, lo: int, hi: int)
    requires
        items.len() > 0,
        all_repr_items_recognized(items),
        has_platform_item(items) ==> (infer_spec(lo, hi) is Some),
    ensures
        repr_scan_choice(items, lo, hi) is Some,
{
    let last = items.len() - 1;
    assert(recognize_repr_item(items[last]) is Some);
    if recognize_repr_item(items[last]) == Some(ReprMode::PlatformCompatible) {
        assert(has_platform_item(items));
    }
}

/// A validated enumeration: its name, the chosen wire representation, the
/// resolved variants in declaration order, and the position of the catch-all
/// variant if one was marked.
#[derive(Debug)]
pub struct Input {
    pub ident: String,
    pub repr: ReprChoice,
    pub variants: Vec<Variant>,
    pub default_variant: Option<usize>,
}

impl Input {
    /// Well-formedness: at least one variant, and `default_variant` points at
    /// the one variant marked as catch-all, or is absent when none is marked.
    pub open spec fn wf(self) -> bool {
        &&& self.variants@.len() >= 1
        &&& match self.default_variant {
            Some(d) => {
                &&& d < self.variants@.len()
                &&& self.variants@[d as int].attrs.is_default
                &&& forall|j: int|
                    0 <= j < self.variants@.len() && self.variants@[j].attrs.is_default ==> j == d
            },
            None => forall|j: int|
                0 <= j < self.variants@.len() ==> !self.variants@[j].attrs.is_default,
        }
    }

    /// Validate a type definition and derive everything a codec needs: the
    /// resolved discriminant of every variant, the wire representation, and
    /// the catch-all variant if one is marked. The first failing check, in
    /// the fixed order below, decides the error.
    #[verifier::loop_isolation(false)]
    pub fn parse(def: &TypeDefinition) -> (r: Result<Input, ConstructError>)
        ensures
            ({
                let n = def.variants@.len();
                if def.shape != DataShape::Enumeration {
                    r == Err::<Input, ConstructError>(ConstructError::NotAnEnum)
                } else if def.any_variant_has_fields() {
                    r matches Err(ConstructError::HasFields(k)) && def.variant_has_fields(k as int)
                        && forall|j: int| 0 <= j < k ==> !def.variant_has_fields(j)
                } else if n == 0 {
                    r == Err::<Input, ConstructError>(ConstructError::Empty)
                } else if def.is_generic {
                    r == Err::<Input, ConstructError>(ConstructError::Generic)
                } else if !all_repr_items_recognized(def.repr_items()) {
                    r == Err::<Input, ConstructError>(ConstructError::UnsupportedRange)
                } else if has_platform_item(def.repr_items()) && (infer_spec(def.lo(), def.hi())
                    is None) {
                    r == Err::<Input, ConstructError>(ConstructError::UnsupportedRange)
                } else if def.repr_items().len() == 0 {
                    r == Err::<Input, ConstructError>(ConstructError::MissingRepresentation)
                } else if def.has_two_catch_alls() {
                    r == Err::<Input, ConstructError>(ConstructError::MultipleCatchAll)
                } else {
                    r matches Ok(input) && {
                        &&& input.wf()
                        &&& input.ident@ == def.ident@
                        &&& Some(input.repr) == repr_scan_choice(
                            def.repr_items(),
                            def.lo(),
                            def.hi(),
                        )
                        &&& input.variants@.len() == n
                        &&& forall|i: int|
                            0 <= i < n ==> {
                                &&& (#[trigger] input.variants@[i]).ident@
                                    == def.variants@[i].ident@
                                &&& input.variants@[i].discriminant
                                    == def.variants@[i].discriminant
                                &&& input.variants@[i].attrs.is_default
                                    == def.variants@[i].is_catch_all_marked()
                                &&& input.variants@[i].resolved == resolved_at(
                                    def.discriminants(),
                                    i,
                                )
                            }
                    }
                }
            }),
    {
        if def.shape != DataShape::Enumeration {
            return Err(ConstructError::NotAnEnum);
        }
        let n: usize = def.variants.len();
        let mut i: usize = 0;
        while i < n
            invariant
                i <= n,
                n == def.variants@.len(),
                forall|j: int| 0 <= j < i ==> !def.variant_has_fields(j),
            decreases n - i,
        {
            if def.variants[i].fields != FieldsKind::Unit {
                proof {
                    assert(def.variant_has_fields(i as int));
                    assert(def.any_variant_has_fields());
                }
                return Err(ConstructError::HasFields(i));
            }
            i = i + 1;
        }
        if n == 0 {
            return Err(ConstructError::Empty);
        }
        if def.is_generic {
            return Err(ConstructError::Generic);
        }
        let mut ds: Vec<Option<i64>> = Vec::new();
        let mut i: usize = 0;
        while i < n
            invariant
                i <= n,
                n == def.variants@.len(),
                ds@.len() == i,
                forall|j: int| 0 <= j < i ==> ds@[j] == def.variants@[j].discriminant,
            decreases n - i,
        {
            ds.push(def.variants[i].discriminant);
            i = i + 1;
        }
        proof {
            assert(ds@ =~= def.discriminants());
        }
        let resolved = resolve_discriminants(&ds);
        let lo: i128 = resolved[0];
        let hi: i128 = resolved[n - 1];
        let repr_name: String = "repr".to_owned();
        let mut chosen: Option<ReprChoice> = None;
        let mut a: usize = 0;
        while a < def.attrs.len()
            invariant
                a <= def.attrs@.len(),
                n == def.variants@.len(),
                n >= 1,
                lo as int == def.lo(),
                hi as int == def.hi(),
                repr_name@ == "repr"@,
                all_repr_items_recognized(repr_items_of(def.attrs@.take(a as int))),
                has_platform_item(repr_items_of(def.attrs@.take(a as int))) ==> (infer_spec(
                    def.lo(),
                    def.hi(),
                ) is Some),
                chosen == repr_scan_choice(
                    repr_items_of(def.attrs@.take(a as int)),
                    def.lo(),
                    def.hi(),
                ),
            decreases def.attrs@.len() - a,
        {
            let ghost base = repr_items_of(def.attrs@.take(a as int));
            let attr = &def.attrs[a];
            if attr.namespace == repr_name {
                match &attr.items {
                    Some(items) => {
                        proof {
                            assert(base + items@.take(0) =~= base);
                        }
                        let mut t: usize = 0;
                        while t < items.len()
                            invariant
                                t <= items@.len(),
                                lo as int == def.lo(),
                                hi as int == def.hi(),
                                all_repr_items_recognized(base + items@.take(t as int)),
                                has_platform_item(base + items@.take(t as int)) ==> (infer_spec(
                                    def.lo(),
                                    def.hi(),
                                ) is Some),
                                chosen == repr_scan_choice(
                                    base + items@.take(t as int),
                                    def.lo(),
                                    def.hi(),
                                ),
                                all_repr_items_recognized(base),
                                items@ == repr_items_in(def.attrs@[a as int]),
                                0 <= a < def.attrs@.len(),
                                base == repr_items_of(def.attrs@.take(a as int)),
                            decreases items@.len() - t,
                        {
                            let ghost s = base + items@.take(t as int);
                            let item = &items[t];
                            match recognize_repr_item_exec(item) {
                                None => {
                                    proof {
                                        lemma_repr_item_in_full(def.attrs@, a as int, t as int);
                                        let idx = repr_items_of(
                                            def.attrs@.take(a as int),
                                        ).len() + t;
                                        assert(def.repr_items()[idx] == items@[t as int]);
                                        assert(recognize_repr_item(def.repr_items()[idx])
                                            is None);
                                        assert(!all_repr_items_recognized(def.repr_items()));
                                    }
                                    return Err(ConstructError::UnsupportedRange);
                                },
                                Some(ReprMode::PlatformCompatible) => {
                                    match infer(lo, hi) {
                                        Some(c) => {
                                            chosen = Some(c);
                                        },
                                        None => {
                                            proof {
                                                lemma_repr_item_in_full(
                                                    def.attrs@,
                                                    a as int,
                                                    t as int,
                                                );
                                                let idx = repr_items_of(
                                                    def.attrs@.take(a as int),
                                                ).len() + t;
                                                assert(def.repr_items()[idx] == items@[t as int]);
                                                assert(recognize_repr_item(def.repr_items()[idx])
                                                    == Some(ReprMode::PlatformCompatible));
                                                assert(has_platform_item(def.repr_items()));
                                            }
                                            return Err(ConstructError::UnsupportedRange);
                                        },
                                    }
                                },
                                Some(ReprMode::Fixed(c)) => {
                                    chosen = Some(c);
                                },
                            }
                            proof {
                                let s1 = base + items@.take(t + 1);
                                assert(s1.drop_last() =~= s);
                                assert(s1.last() == items@[t as int]);
                                assert forall|j: int| 0 <= j < s1.len() implies recognize_repr_item(
                                    s1[j],
                                ) is Some by {
                                    if j < s.len() {
                                        assert(s1[j] == s[j]);
                                    }
                                }
                                if has_platform_item(s1) {
                                    let w = choose|j: int|
                                        0 <= j < s1.len() && recognize_repr_item(s1[j]) == Some(
                                            ReprMode::PlatformCompatible,
                                        );
                                    if w < s.len() {
                                        assert(s1[w] == s[w]);
                                        assert(has_platform_item(s));
                                    }
                                }
                            }
                            t = t + 1;
                        }
                        proof {
                            assert(items@.take(items@.len() as int) =~= items@);
                            lemma_repr_items_take_succ(def.attrs@, a as int);
                        }
                    },
                    None => {
                        proof {
                            lemma_repr_items_take_succ(def.attrs@, a as int);
                            assert(base + repr_items_in(def.attrs@[a as int]) =~= base);
                        }
                    },
                }
            } else {
                proof {
                    lemma_repr_items_take_succ(def.attrs@, a as int);
                    assert(base + repr_items_in(def.attrs@[a as int]) =~= base);
                }
            }
            a = a + 1;
        }
        proof {
            assert(def.attrs@.take(def.attrs@.len() as int) =~= def.attrs@);
        }
        let repr: ReprChoice = match chosen {
            Some(c) => c,
            None => {
                proof {
                    if def.repr_items().len() > 0 {
                        lemma_scan_choice_some(def.repr_items(), def.lo(), def.hi());
                    }
                }
                return Err(ConstructError::MissingRepresentation);
            },
        };
        let mut default_idx: Option<usize> = None;
        let mut i: usize = 0;
        while i < n
            invariant
                i <= n,
                n == def.variants@.len(),
                match default_idx {
                    Some(d) => {
                        &&& d < i
                        &&& def.variants@[d as int].is_catch_all_marked()
                        &&& forall|j: int|
                            0 <= j < i && def.variants@[j].is_catch_all_marked() ==> j == d
                    },
                    None => forall|j: int| 0 <= j < i ==> !def.variants@[j].is_catch_all_marked(),
                },
            decreases n - i,
        {
            let va = parse_attrs(&def.variants[i]);
            if va.is_default {
                match default_idx {
                    Some(d) => {
                        proof {
                            assert(def.variants@[d as int].is_catch_all_marked());
                            assert(def.variants@[i as int].is_catch_all_marked());
                            assert(def.has_two_catch_alls());
                            if def.repr_items().len() == 0 {
                                assert(repr_scan_choice(def.repr_items(), def.lo(), def.hi())
                                    is None);
                            }
                        }
                        return Err(ConstructError::MultipleCatchAll);
                    },
                    None => {
                        default_idx = Some(i);
                    },
                }
            }
            i = i + 1;
        }
        let mut variants: Vec<Variant> = Vec::new();
        let mut i: usize = 0;
        while i < n
            invariant
                i <= n,
                n == def.variants@.len(),
                n == resolved@.len(),
                forall|j: int| 0 <= j < n ==> resolved@[j] == resolved_at(def.discriminants(), j),
                variants@.len() == i,
                forall|j: int|
                    0 <= j < i ==> {
                        &&& (#[trigger] variants@[j]).ident@ == def.variants@[j].ident@
                        &&& variants@[j].discriminant == def.variants@[j].discriminant
                        &&& variants@[j].attrs.is_default == def.variants@[j].is_catch_all_marked()
                        &&& variants@[j].resolved == resolved_at(def.discriminants(), j)
                    },
            decreases n - i,
        {
            let va = parse_attrs(&def.variants[i]);
            variants.push(
                Variant {
                    ident: def.variants[i].ident.clone(),
                    attrs: va,
                    discriminant: def.variants[i].discriminant,
                    resolved: resolved[i],
                },
            );
            i = i + 1;
        }
        proof {
            if def.repr_items().len() == 0 {
                assert(repr_scan_choice(def.repr_items(), def.lo(), def.hi()) is None);
            }
        }
        Ok(Input { ident: def.ident.clone(), repr, variants, default_variant: default_idx })
    }
}

/// The item at position `t` of the `repr` list of the attribute at `a`
/// occurs in the full `repr` item sequence, at the position that the split
/// at `a` assigns it.
proof fn lemma_repr_item_in_full(attrs: Seq<RawAttr>, a: int, t: int)
    requires
        0 <= a < attrs.len(),
        attrs[a].namespace@ == "repr"@,
        attrs[a].items is Some,
        0 <= t < repr_items_in(attrs[a]).len(),
    ensures
        ({
            let idx = repr_items_of(attrs.take(a)).len() + t;
            &&& 0 <= idx < repr_items_of(attrs).len()
            &&& repr_items_of(attrs)[idx] == repr_items_in(attrs[a])[t]
        }),
{
    lemma_repr_items_split(attrs, a + 1);
    lemma_repr_items_take_succ(attrs, a);
}

/// Recognize one `repr` item.
fn recognize_repr_item_exec(item: &MetaItem) -> (r: Option<ReprMode>)
    ensures
        r == recognize_repr_item(*item),
{
    match item.kind {
        MetaKind::Marker => {
            if item.name == "C".to_owned() {
                Some(ReprMode::PlatformCompatible)
            } else if item.name == "u8".to_owned() {
                Some(ReprMode::Fixed(ReprChoice::U8))
            } else if item.name == "u16".to_owned() {
                Some(ReprMode::Fixed(ReprChoice::U16))
            } else if item.name == "u32".to_owned() {
                Some(ReprMode::Fixed(ReprChoice::U32))
            } else if item.name == "i8".to_owned() {
                Some(ReprMode::Fixed(ReprChoice::I8))
            } else if item.name == "i16".to_owned() {
                Some(ReprMode::Fixed(ReprChoice::I16))
            } else if item.name == "i32".to_owned() {
                Some(ReprMode::Fixed(ReprChoice::I32))
            } else {
                None
            }
        },
        _ => None,
    }
}

} // verus!
