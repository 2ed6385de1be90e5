//! The interner: one canonical handle for each type and for each layout.

use vstd::prelude::*;
use bumpalo::Bump;
use rustc_hash::FxHashMap;
use crate::ast::{IntTyKind, TypeSpecifier};
use crate::ir::{Layout, LayoutRef, TyLayout};
use crate::lower::backing::{arena_alloc, table_get, table_insert};
use crate::ty::{Ty, TyKind};

verus! {

/// The layout of a type under the fixed ABI of the pass. A struct, a union and
/// an enum have none yet.
pub open spec fn abi_layout(kind: TyKind) -> Option<Layout> {
    match kind {
        TyKind::Void => Some(Layout { size: 0, align: 1 }),
        TyKind::Char => Some(Layout { size: 1, align: 1 }),
        TyKind::SChar => Some(Layout { size: 1, align: 1 }),
        TyKind::UChar => Some(Layout { size: 1, align: 1 }),
        TyKind::Integer(ity) => Some(
            match ity.1 {
                IntTyKind::Bool => Layout { size: 1, align: 1 },
                IntTyKind::Char => Layout { size: 1, align: 1 },
                IntTyKind::Short => Layout { size: 2, align: 2 },
                IntTyKind::Int => Layout { size: 4, align: 4 },
                IntTyKind::Long => Layout { size: 8, align: 8 },
                IntTyKind::LongLong => Layout { size: 8, align: 8 },
            },
        ),
        TyKind::Float => Some(Layout { size: 4, align: 4 }),
        TyKind::Double => Some(Layout { size: 8, align: 8 }),
        TyKind::LongDouble => Some(Layout { size: 8, align: 8 }),
        TyKind::Bool => Some(Layout { size: 1, align: 1 }),
        TyKind::Struct(_) => None,
        TyKind::Union(_) => None,
        TyKind::Enum(_) => None,
        TyKind::Ptr(_) => Some(Layout { size: 8, align: 8 }),
    }
}

/// The type that a type specifier names.
pub open spec fn specified_kind<'cx>(spec: TypeSpecifier) -> TyKind<'cx> {
    match spec {
        TypeSpecifier::Void => TyKind::Void,
        TypeSpecifier::Char => TyKind::Char,
        TypeSpecifier::SChar => TyKind::SChar,
        TypeSpecifier::UChar => TyKind::UChar,
        TypeSpecifier::Integer(ity) => TyKind::Integer(ity),
        TypeSpecifier::Float => TyKind::Float,
        TypeSpecifier::Double => TyKind::Double,
        TypeSpecifier::LongDouble => TyKind::LongDouble,
        TypeSpecifier::Bool => TyKind::Bool,
    }
}

/// What an interner holds, as a mathematical value: the handles it has given
/// out, in the order in which their types and layouts first occurred.
pub ghost struct InternerView<'cx> {
    pub tys: Seq<Ty<'cx>>,
    pub layouts: Seq<LayoutRef<'cx>>,
}

impl<'cx> InternerView<'cx> {
    /// An interner that has seen nothing.
    pub open spec fn empty() -> Self {
        InternerView { tys: Seq::empty(), layouts: Seq::empty() }
    }

    /// Whether `ty` is a handle that this interner gave out.
    pub open spec fn owns_ty(self, ty: Ty<'cx>) -> bool {
        ty.id < self.tys.len() && self.tys[ty.id as int] == ty
    }

    /// Whether `layout` is a handle that this interner gave out.
    pub open spec fn owns_layout(self, layout: LayoutRef<'cx>) -> bool {
        layout.id < self.layouts.len() && self.layouts[layout.id as int] == layout
    }

    /// Whether this interner gave out both handles of `tyl`.
    pub open spec fn owns(self, tyl: TyLayout<'cx>) -> bool {
        self.owns_ty(tyl.ty) && self.owns_layout(tyl.layout)
    }

    /// Whether `kind` can be interned here: the pointee of a pointer must be a
    /// handle of this interner.
    pub open spec fn accepts(self, kind: TyKind<'cx>) -> bool {
        kind matches TyKind::Ptr(pointee) ==> self.owns_ty(pointee)
    }

    /// The invariant of an interner: the identity of a handle is its position,
    /// no type and no layout occurs twice, and pointees are handles of the same
    /// interner.
    pub open spec fn wf(self) -> bool {
        &&& forall|i: int| 0 <= i < self.tys.len() ==> (#[trigger] self.tys[i]).id == i
        &&& forall|i: int|
            0 <= i < self.tys.len() ==> self.accepts(*(#[trigger] self.tys[i]).kind)
        &&& forall|i: int, j: int|
            0 <= i < j < self.tys.len() ==> *(#[trigger] self.tys[i]).kind != *(
            #[trigger] self.tys[j]).kind
        &&& forall|i: int| 0 <= i < self.layouts.len() ==> (#[trigger] self.layouts[i]).id == i
        &&& forall|i: int, j: int|
            0 <= i < j < self.layouts.len() ==> *(#[trigger] self.layouts[i]).layout != *(
            #[trigger] self.layouts[j]).layout
    }

    /// Whether the identity of one more handle of each sort can be told by a
    /// machine integer. An interner in memory always has that room.
    pub open spec fn has_room(self) -> bool {
        self.tys.len() <= usize::MAX && self.layouts.len() <= usize::MAX
    }

    /// Whether everything that `earlier` gave out is still a handle of `self`.
    pub open spec fn extends(self, earlier: InternerView<'cx>) -> bool {
        &&& earlier.tys.len() <= self.tys.len()
        &&& earlier.layouts.len() <= self.layouts.len()
        &&& forall|i: int| 0 <= i < earlier.tys.len() ==> self.tys[i] == #[trigger] earlier.tys[i]
        &&& forall|i: int|
            0 <= i < earlier.layouts.len() ==> self.layouts[i] == #[trigger] earlier.layouts[i]
    }

    /// The handle already given out for `kind`, if there is one.
    pub open spec fn find_ty(self, kind: TyKind<'cx>) -> Option<Ty<'cx>> {
        if exists|i: int| 0 <= i < self.tys.len() && *(#[trigger] self.tys[i]).kind == kind {
            Some(
                self.tys[choose|i: int|
                    0 <= i < self.tys.len() && *(#[trigger] self.tys[i]).kind == kind],
            )
        } else {
            None
        }
    }

    /// The handle already given out for `layout`, if there is one.
    pub open spec fn find_layout(self, layout: Layout) -> Option<LayoutRef<'cx>> {
        if exists|i: int|
            0 <= i < self.layouts.len() && *(#[trigger] self.layouts[i]).layout == layout {
            Some(
                self.layouts[choose|i: int|
                    0 <= i < self.layouts.len() && *(#[trigger] self.layouts[i]).layout == layout],
            )
        } else {
            None
        }
    }

    /// Interning a type: the handle given out before for an equal type, or
    /// else a new handle, which is then kept.
    pub open spec fn intern_ty(self, kind: TyKind<'cx>) -> (InternerView<'cx>, Ty<'cx>) {
        match self.find_ty(kind) {
            Some(ty) => (self, ty),
            None => {
                let ty = Ty { id: self.tys.len() as usize, kind: &kind };
                (InternerView { tys: self.tys.push(ty), ..self }, ty)
            },
        }
    }

    /// Interning a layout, in the same way.
    pub open spec fn intern_layout(self, layout: Layout) -> (InternerView<'cx>, LayoutRef<'cx>) {
        match self.find_layout(layout) {
            Some(handle) => (self, handle),
            None => {
                let handle = LayoutRef { id: self.layouts.len() as usize, layout: &layout };
                (InternerView { layouts: self.layouts.push(handle), ..self }, handle)
            },
        }
    }

    /// Interning the type that a specifier names.
    pub open spec fn lower_ty(self, spec: TypeSpecifier) -> (InternerView<'cx>, Ty<'cx>) {
        self.intern_ty(specified_kind(spec))
    }

    /// Pairing a type with its canonical layout. A type without a layout leaves
    /// the interner as it is.
    pub open spec fn layout_of(self, ty: Ty<'cx>) -> (InternerView<'cx>, Option<TyLayout<'cx>>) {
        match abi_layout(*ty.kind) {
            Some(layout) => {
                let (after, handle) = self.intern_layout(layout);
                (after, Some(TyLayout { ty, layout: handle }))
            },
            None => (self, None),
        }
    }

    /// Interning `void` and pairing it with its layout: the type that the pass
    /// gives to every value it computes.
    pub open spec fn void_layout(self) -> (InternerView<'cx>, TyLayout<'cx>) {
        let (with_ty, ty) = self.intern_ty(TyKind::Void);
        let (with_layout, tyl) = with_ty.layout_of(ty);
        (with_layout, tyl->0)
    }

    /// In a well-formed interner at most one handle has a given type, so the
    /// handle found for the type of a handle of the interner is that handle.
    pub proof fn lemma_find_owned_ty(self, ty: Ty<'cx>)
        requires
            self.wf(),
            self.owns_ty(ty),
        ensures
            self.find_ty(*ty.kind) == Some(ty),
    {
        let found = choose|i: int|
            0 <= i < self.tys.len() && *(#[trigger] self.tys[i]).kind == *ty.kind;
        assert(self.tys[ty.id as int] == ty);
        assert(found == ty.id);
    }

    /// The same for layouts.
    pub proof fn lemma_find_owned_layout(self, handle: LayoutRef<'cx>)
        requires
            self.wf(),
            self.owns_layout(handle),
        ensures
            self.find_layout(*handle.layout) == Some(handle),
    {
        let found = choose|i: int|
            0 <= i < self.layouts.len() && *(#[trigger] self.layouts[i]).layout == *handle.layout;
        assert(self.layouts[handle.id as int] == handle);
        assert(found == handle.id);
    }

    /// Interning keeps the interner well-formed and all its handles, and gives
    /// a handle of the interner for exactly the type asked for.
    pub proof fn lemma_intern_ty(self, kind: TyKind<'cx>)
        requires
            self.wf(),
            self.has_room(),
            self.accepts(kind),
        ensures
            self.intern_ty(kind).0.wf(),
            self.intern_ty(kind).0.extends(self),
            self.intern_ty(kind).0.owns_ty(self.intern_ty(kind).1),
            *self.intern_ty(kind).1.kind == kind,
            self.intern_ty(kind).0.layouts == self.layouts,
    {
        let (after, ty) = self.intern_ty(kind);
        match self.find_ty(kind) {
            Some(found) => {
                let i = choose|i: int|
                    0 <= i < self.tys.len() && *(#[trigger] self.tys[i]).kind == kind;
                assert(self.tys[i].id == i);
            },
            None => {
                assert forall|i: int| 0 <= i < after.tys.len() implies after.accepts(
                    *(#[trigger] after.tys[i]).kind,
                ) by {
                    if i < self.tys.len() {
                        assert(self.accepts(*self.tys[i].kind));
                    }
                }
                assert forall|i: int, j: int| 0 <= i < j < after.tys.len() implies *(
                #[trigger] after.tys[i]).kind != *(#[trigger] after.tys[j]).kind by {
                    if j == self.tys.len() {
                        assert(*self.tys[i].kind != kind);
                    }
                }
            },
        }
    }

    /// The same for layouts.
    pub proof fn lemma_intern_layout(self, layout: Layout)
        requires
            self.wf(),
            self.has_room(),
        ensures
            self.intern_layout(layout).0.wf(),
            self.intern_layout(layout).0.extends(self),
            self.intern_layout(layout).0.owns_layout(self.intern_layout(layout).1),
            *self.intern_layout(layout).1.layout == layout,
            self.intern_layout(layout).0.tys == self.tys,
    {
        let (after, handle) = self.intern_layout(layout);
        match self.find_layout(layout) {
            Some(found) => {
                let i = choose|i: int|
                    0 <= i < self.layouts.len() && *(#[trigger] self.layouts[i]).layout == layout;
                assert(self.layouts[i].id == i);
            },
            None => {
                assert forall|i: int, j: int| 0 <= i < j < after.layouts.len() implies *(
                #[trigger] after.layouts[i]).layout != *(#[trigger] after.layouts[j]).layout by {
                    if j == self.layouts.len() {
                        assert(*self.layouts[i].layout != layout);
                    }
                }
            },
        }
    }

    /// What extends an extension extends what was there first.
    pub proof fn lemma_extends_trans(self, mid: InternerView<'cx>, earlier: InternerView<'cx>)
        requires
            self.extends(mid),
            mid.extends(earlier),
        ensures
            self.extends(earlier),
    {
        assert forall|i: int| 0 <= i < earlier.tys.len() implies self.tys[i]
            == #[trigger] earlier.tys[i] by {
            assert(mid.tys[i] == earlier.tys[i]);
        }
        assert forall|i: int| 0 <= i < earlier.layouts.len() implies self.layouts[i]
            == #[trigger] earlier.layouts[i] by {
            assert(mid.layouts[i] == earlier.layouts[i]);
        }
    }

    /// A handle stays a handle of the interner, whatever is interned later.
    pub proof fn lemma_extends_owns(self, earlier: InternerView<'cx>, tyl: TyLayout<'cx>)
        requires
            self.extends(earlier),
        ensures
            earlier.owns_ty(tyl.ty) ==> self.owns_ty(tyl.ty),
            earlier.owns_layout(tyl.layout) ==> self.owns_layout(tyl.layout),
            earlier.owns(tyl) ==> self.owns(tyl),
    {
        if earlier.owns_ty(tyl.ty) {
            assert(self.tys[tyl.ty.id as int] == earlier.tys[tyl.ty.id as int]);
        }
        if earlier.owns_layout(tyl.layout) {
            assert(self.layouts[tyl.layout.id as int] == earlier.layouts[tyl.layout.id as int]);
        }
    }

    /// Interning is idempotent: interning the type of a handle of the interner
    /// gives that very handle and changes nothing. With
    /// [`Self::lemma_extends_owns`] this holds on every later call.
    pub proof fn lemma_intern_owned_ty(self, ty: Ty<'cx>)
        requires
            self.wf(),
            self.owns_ty(ty),
        ensures
            self.intern_ty(*ty.kind) == (self, ty),
    {
        self.lemma_find_owned_ty(ty);
    }

    /// The same for layouts.
    pub proof fn lemma_intern_owned_layout(self, handle: LayoutRef<'cx>)
        requires
            self.wf(),
            self.owns_layout(handle),
        ensures
            self.intern_layout(*handle.layout) == (self, handle),
    {
        self.lemma_find_owned_layout(handle);
    }

    /// Interning a type a second time gives the identical handle and changes
    /// nothing.
    pub proof fn lemma_intern_ty_twice(self, kind: TyKind<'cx>)
        requires
            self.wf(),
            self.has_room(),
            self.accepts(kind),
        ensures
            self.intern_ty(kind).0.intern_ty(kind) == self.intern_ty(kind),
    {
        self.lemma_intern_ty(kind);
        self.intern_ty(kind).0.lemma_intern_owned_ty(self.intern_ty(kind).1);
    }

    /// Lowering a type specifier a second time gives the identical handle and
    /// changes nothing.
    pub proof fn lemma_lower_ty_twice(self, spec: TypeSpecifier)
        requires
            self.wf(),
            self.has_room(),
        ensures
            self.lower_ty(spec).0.lower_ty(spec) == self.lower_ty(spec),
    {
        self.lemma_intern_ty_twice(specified_kind(spec));
    }

    /// Asking for the layout of a type a second time gives the identical pair
    /// of handles and changes nothing.
    pub proof fn lemma_layout_of_twice(self, ty: Ty<'cx>)
        requires
            self.wf(),
            self.has_room(),
        ensures
            self.layout_of(ty).0.layout_of(ty) == self.layout_of(ty),
    {
        if let Some(layout) = abi_layout(*ty.kind) {
            self.lemma_intern_layout(layout);
            self.intern_layout(layout).0.lemma_intern_owned_layout(self.intern_layout(layout).1);
        }
    }

    /// Among the handles of one interner, the same type means the same
    /// identity, and the other way round: comparing types is comparing
    /// identities.
    pub proof fn lemma_identity_is_equality(self, a: Ty<'cx>, b: Ty<'cx>)
        requires
            self.wf(),
            self.owns_ty(a),
            self.owns_ty(b),
        ensures
            *a.kind == *b.kind <==> a.id == b.id,
            a.id == b.id <==> a == b,
    {
        assert(self.tys[a.id as int] == a);
        assert(self.tys[b.id as int] == b);
    }

    /// The same for layouts.
    pub proof fn lemma_layout_identity_is_equality(self, a: LayoutRef<'cx>, b: LayoutRef<'cx>)
        requires
            self.wf(),
            self.owns_layout(a),
            self.owns_layout(b),
        ensures
            *a.layout == *b.layout <==> a.id == b.id,
            a.id == b.id <==> a == b,
    {
        assert(self.layouts[a.id as int] == a);
        assert(self.layouts[b.id as int] == b);
    }

    /// The layout of a type is the one that the fixed ABI gives it; a struct, a
    /// union and an enum are the types without one.
    pub proof fn lemma_layout_of_abi(self, ty: Ty<'cx>)
        requires
            self.wf(),
            self.has_room(),
        ensures
            self.layout_of(ty).0.wf(),
            self.layout_of(ty).0.extends(self),
            self.layout_of(ty).1 is None <==> ty.kind.is_aggregate(),
            self.layout_of(ty).1 matches Some(tyl) ==> {
                &&& tyl.ty == ty
                &&& Some(*tyl.layout.layout) == abi_layout(*ty.kind)
                &&& self.layout_of(ty).0.owns_layout(tyl.layout)
            },
    {
        if let Some(layout) = abi_layout(*ty.kind) {
            self.lemma_intern_layout(layout);
        }
    }
}

/// The interner of one compilation unit. The descriptors live in an arena that
/// outlives every handle; the interner finds them again by their content.
pub struct LoweringCx<'cx> {
    arena: &'cx Bump,
    tys: Vec<Ty<'cx>>,
    ty_ids: FxHashMap<u128, usize>,
    layouts: Vec<LayoutRef<'cx>>,
    layout_ids: FxHashMap<u128, usize>,
}

impl<'cx> View for LoweringCx<'cx> {
    type V = InternerView<'cx>;

    closed spec fn view(&self) -> InternerView<'cx> {
        InternerView { tys: self.tys@, layouts: self.layouts@ }
    }
}

impl<'cx> LoweringCx<'cx> {
    /// Whether the table of types files each handle under the key of its type,
    /// and nothing else.
    spec fn ty_table_ok(&self) -> bool {
        &&& forall|i: int|
            0 <= i < self.tys@.len() ==> {
                let key = (#[trigger] self.tys@[i]).kind.key() as u128;
                self.ty_ids@.contains_key(key) && self.ty_ids@[key] == i
            }
        &&& forall|key: u128| #[trigger]
            self.ty_ids@.contains_key(key) ==> {
                let i = self.ty_ids@[key] as int;
                i < self.tys@.len() && self.tys@[i].kind.key() == key
            }
    }

    /// The same for the table of layouts.
    spec fn layout_table_ok(&self) -> bool {
        &&& forall|i: int|
            0 <= i < self.layouts@.len() ==> {
                let key = (#[trigger] self.layouts@[i]).layout.key() as u128;
                self.layout_ids@.contains_key(key) && self.layout_ids@[key] == i
            }
        &&& forall|key: u128| #[trigger]
            self.layout_ids@.contains_key(key) ==> {
                let i = self.layout_ids@[key] as int;
                i < self.layouts@.len() && self.layouts@[i].layout.key() == key
            }
    }

    /// The invariant of the interner: what it holds is well-formed, and its
    /// tables agree with it.
    pub closed spec fn wf(&self) -> bool {
        &&& self@.wf()
        &&& self.ty_table_ok()
        &&& self.layout_table_ok()
    }

    /// What a well-formed interner holds is well-formed, and there is room for
    /// more.
    pub proof fn lemma_wf(&self)
        requires
            self.wf(),
        ensures
            self@.wf(),
            self@.has_room(),
    {
        assert(self.tys.len() <= usize::MAX);
        assert(self.layouts.len() <= usize::MAX);
    }

    /// An interner that has seen nothing and keeps its descriptors in `arena`.
    pub fn new(arena: &'cx Bump) -> (lcx: Self)
        ensures
            lcx.wf(),
            lcx@ == InternerView::<'cx>::empty(),
    {
        LoweringCx {
            arena,
            tys: Vec::new(),
            ty_ids: FxHashMap::default(),
            layouts: Vec::new(),
            layout_ids: FxHashMap::default(),
        }
    }

    /// The canonical handle of the type that `ty` names.
    pub fn lower_ty(&mut self, ty: &TypeSpecifier) -> (handle: Ty<'cx>)
        requires
            old(self).wf(),
        ensures
            final(self).wf(),
            (final(self)@, handle) == old(self)@.lower_ty(*ty),
            final(self)@.extends(old(self)@),
            final(self)@.owns_ty(handle),
            *handle.kind == specified_kind::<'cx>(*ty),
    {
        let kind = match ty {
            TypeSpecifier::Void => TyKind::Void,
            TypeSpecifier::Char => TyKind::Char,
            TypeSpecifier::SChar => TyKind::SChar,
            TypeSpecifier::UChar => TyKind::UChar,
            TypeSpecifier::Integer(ity) => TyKind::Integer(*ity),
            TypeSpecifier::Float => TyKind::Float,
            TypeSpecifier::Double => TyKind::Double,
            TypeSpecifier::LongDouble => TyKind::LongDouble,
            TypeSpecifier::Bool => TyKind::Bool,
        };
        self.intern_ty(kind)
    }

    /// The canonical handle of `kind`: the one given out before for an equal
    /// type, if there is one, and else a new one.
    pub fn intern_ty(&mut self, kind: TyKind<'cx>) -> (handle: Ty<'cx>)
        requires
            old(self).wf(),
            old(self)@.accepts(kind),
        ensures
            final(self).wf(),
            (final(self)@, handle) == old(self)@.intern_ty(kind),
            final(self)@.extends(old(self)@),
            final(self)@.owns_ty(handle),
            *handle.kind == kind,
    {
        proof {
            self.lemma_wf();
            self@.lemma_intern_ty(kind);
        }
        let key = kind.compute_key();
        let found = match table_get(&self.ty_ids, &key) {
            Some(id) => Some(*id),
            None => None,
        };
        match found {
            Some(id) => {
                let handle = self.tys[id];
                proof {
                    handle.kind.lemma_key_injective(kind);
                    assert(self@.accepts(*self@.tys[id as int].kind));
                    assert(*handle.kind == kind);
                    assert(self@.owns_ty(handle));
                    self@.lemma_find_owned_ty(handle);
                }
                handle
            },
            None => {
                proof {
                    if self@.find_ty(kind) is Some {
                        let i = choose|i: int|
                            0 <= i < self@.tys.len() && *(#[trigger] self@.tys[i]).kind == kind;
                        assert(self.ty_ids@.contains_key(self.tys@[i].kind.key() as u128));
                    }
                }
                let id = self.tys.len();
                let slot = arena_alloc(self.arena, kind);
                let handle = Ty { id, kind: slot };
                self.tys.push(handle);
                table_insert(&mut self.ty_ids, key, id);
                proof {
                    assert forall|i: int| 0 <= i < self.tys@.len() implies {
                        let key = (#[trigger] self.tys@[i]).kind.key() as u128;
                        self.ty_ids@.contains_key(key) && self.ty_ids@[key] == i
                    } by {
                        if i < id {
                            assert(old(self).tys@[i] == self.tys@[i]);
                        }
                    }
                }
                handle
            },
        }
    }

    /// The canonical handle of `layout`, in the same way.
    pub fn intern_layout(&mut self, layout: Layout) -> (handle: LayoutRef<'cx>)
        requires
            old(self).wf(),
        ensures
            final(self).wf(),
            (final(self)@, handle) == old(self)@.intern_layout(layout),
            final(self)@.extends(old(self)@),
            final(self)@.owns_layout(handle),
            *handle.layout == layout,
    {
        proof {
            self.lemma_wf();
            self@.lemma_intern_layout(layout);
        }
        let key = layout.compute_key();
        let found = match table_get(&self.layout_ids, &key) {
            Some(id) => Some(*id),
            None => None,
        };
        match found {
            Some(id) => {
                let handle = self.layouts[id];
                proof {
                    handle.layout.lemma_key_injective(layout);
                    assert(self@.owns_layout(handle));
                    self@.lemma_find_owned_layout(handle);
                }
                handle
            },
            None => {
                proof {
                    if self@.find_layout(layout) is Some {
                        let i = choose|i: int|
                            0 <= i < self@.layouts.len() && *(#[trigger] self@.layouts[i]).layout
                                == layout;
                        assert(self.layout_ids@.contains_key(
                            self.layouts@[i].layout.key() as u128,
                        ));
                    }
                }
                let id = self.layouts.len();
                let slot = arena_alloc(self.arena, layout);
                let handle = LayoutRef { id, layout: slot };
                self.layouts.push(handle);
                table_insert(&mut self.layout_ids, key, id);
                proof {
                    assert forall|i: int| 0 <= i < self.layouts@.len() implies {
                        let key = (#[trigger] self.layouts@[i]).layout.key() as u128;
                        self.layout_ids@.contains_key(key) && self.layout_ids@[key] == i
                    } by {
                        if i < id {
                            assert(old(self).layouts@[i] == self.layouts@[i]);
                        }
                    }
                }
                handle
            },
        }
    }

    /// The type `ty` with its canonical layout, under the fixed ABI of the
    /// pass: `None` for a struct, a union or an enum, whose layout the pass does
    /// not compute.
    pub fn layout_of(&mut self, ty: Ty<'cx>) -> (paired: Option<TyLayout<'cx>>)
        requires
            old(self).wf(),
        ensures
            final(self).wf(),
            (final(self)@, paired) == old(self)@.layout_of(ty),
            final(self)@.extends(old(self)@),
            paired is None <==> ty.kind.is_aggregate(),
            paired matches Some(tyl) ==> {
                &&& tyl.ty == ty
                &&& Some(*tyl.layout.layout) == abi_layout(*ty.kind)
                &&& final(self)@.owns_layout(tyl.layout)
            },
    {
        let layout = match *ty.kind {
            TyKind::Void => Layout::size_align(0, 1),
            TyKind::Char => Layout::size_align(1, 1),
            TyKind::SChar => Layout::size_align(1, 1),
            TyKind::UChar => Layout::size_align(1, 1),
            TyKind::Integer(ity) => match ity.1 {
                IntTyKind::Bool => Layout::size_align(1, 1),
                IntTyKind::Char => Layout::size_align(1, 1),
                IntTyKind::Short => Layout::size_align(2, 2),
                IntTyKind::Int => Layout::size_align(4, 4),
                IntTyKind::Long => Layout::size_align(8, 8),
                IntTyKind::LongLong => Layout::size_align(8, 8),
            },
            TyKind::Float => Layout::size_align(4, 4),
            TyKind::Double => Layout::size_align(8, 8),
            TyKind::LongDouble => Layout::size_align(8, 8),
            TyKind::Bool => Layout::size_align(1, 1),
            TyKind::Struct(_) => {
                return None;
            },
            TyKind::Union(_) => {
                return None;
            },
            TyKind::Enum(_) => {
                return None;
            },
            TyKind::Ptr(_) => Layout::size_align(8, 8),
        };
        let layout = self.intern_layout(layout);
        Some(TyLayout { ty, layout })
    }
}

} // verus!
