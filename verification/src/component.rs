//! Component types described at run time, and the registry that gives each an id.

use vstd::arithmetic::power2::is_pow2;
use vstd::layout::valid_layout;
use vstd::prelude::*;

verus! {

/// How the values of a component type are stored.
#[derive(Clone, Copy, Debug, PartialEq, Eq, Structural, Hash)]
pub enum StorageType {
    /// In the column of a table shared by all entities with the same set of table
    /// components.
    Table,
    /// In a set of the component's own, indexed by entity slot.
    SparseSet,
}

/// The size and alignment of one value of a component type.
#[derive(Clone, Copy, Debug, PartialEq, Eq, Structural, Hash)]
pub struct Layout {
    size: usize,
    align: usize,
}

impl Layout {
    /// The size in bytes.
    pub closed spec fn size_spec(&self) -> usize {
        self.size
    }

    /// The alignment in bytes.
    pub closed spec fn align_spec(&self) -> usize {
        self.align
    }

    /// Every layout is valid: its alignment is a power of two, and its size, rounded up
    /// to the alignment, fits in `isize`.
    pub closed spec fn inv(&self) -> bool {
        valid_layout(self.size, self.align)
    }

    /// The layout of `size` bytes aligned to `align`, where that is a valid layout.
    pub fn from_size_align(size: usize, align: usize) -> (r: Option<Layout>)
        ensures
            r is Some <==> valid_layout(size, align),
            r is Some ==> r.unwrap().inv() && r.unwrap().size_spec() == size
                && r.unwrap().align_spec() == align,
    {
        if !is_power_of_two(align) {
            return None;
        }
        proof {
            reveal(is_pow2);
        }
        let max: usize = isize::MAX as usize;
        assert(max % align <= max) by (nonlinear_arith)
            requires
                align > 0,
        ;
        if size > max - max % align {
            return None;
        }
        Some(Layout { size, align })
    }

    /// The layout of `size` bytes without alignment.
    pub fn packed(size: u16) -> (l: Layout)
        ensures
            l.inv(),
            l.size_spec() == size,
            l.align_spec() == 1,
    {
        proof {
            reveal(is_pow2);
            assert(isize::MAX as int % 1 == 0);
        }
        Layout { size: size as usize, align: 1 }
    }

    /// The size in bytes.
    pub fn size(&self) -> (n: usize)
        ensures
            n == self.size_spec(),
    {
        self.size
    }

    /// The alignment in bytes.
    pub fn align(&self) -> (n: usize)
        ensures
            n == self.align_spec(),
    {
        self.align
    }
}

/// Whether `n` is a power of two.
pub fn is_power_of_two(n: usize) -> (r: bool)
    ensures
        r == is_pow2(n as int),
{
    reveal(is_pow2);
    if n == 0 {
        return false;
    }
    let mut m: usize = n;
    while m % 2 == 0
        invariant
            m > 0,
            is_pow2(m as int) == is_pow2(n as int),
        decreases m,
    {
        proof {
            reveal(is_pow2);
        }
        m = m / 2;
    }
    m == 1
}

/// The handle of a registered component type. Handles are given out in order, from zero.
#[derive(Clone, Copy, Debug, PartialEq, Eq, Structural, Hash)]
pub struct ComponentId {
    /// The position of the component type in the registry.
    pub index: usize,
}

/// The index of the handle that names no component type.
pub const INVALID_INDEX: usize = usize::MAX;

impl ComponentId {
    /// The handle at `index`.
    pub fn new(index: usize) -> (id: ComponentId)
        ensures
            id.index == index,
    {
        ComponentId { index }
    }

    /// The position of the component type in the registry.
    pub fn index(&self) -> (i: usize)
        ensures
            i == self.index,
    {
        self.index
    }

    /// The handle that names no component type: what a failed lookup returns where an
    /// absent value cannot be expressed.
    pub open spec fn invalid_spec() -> ComponentId {
        ComponentId { index: INVALID_INDEX }
    }

    /// The handle that names no component type.
    #[verifier::when_used_as_spec(invalid_spec)]
    pub fn invalid() -> (id: ComponentId)
        ensures
            id == ComponentId::invalid_spec(),
    {
        ComponentId { index: INVALID_INDEX }
    }

    /// Whether this is a handle other than the invalid one.
    pub fn is_valid(&self) -> (r: bool)
        ensures
            r == (*self != ComponentId::invalid_spec()),
    {
        self.index != INVALID_INDEX
    }
}

/// What is owed to a value that leaves the world.
#[derive(Clone, Copy, Debug, PartialEq, Eq, Structural, Hash)]
pub enum DropFn {
    /// Nothing: the value holds no resources.
    Noop,
    /// A call of the destructor that the embedding program keeps under this number.
    Callback(usize),
}

/// The description of a component type as a mathematical value.
pub struct DescriptorView {
    pub name: Seq<char>,
    pub storage_type: StorageType,
    pub is_send_and_sync: bool,
    pub type_key: Option<u64>,
    pub size: usize,
    pub align: usize,
    pub drop_fn: DropFn,
}

/// The description of a component type, for types that exist only at run time as well as
/// for those of the program.
#[derive(Clone, Debug)]
pub struct ComponentDescriptor {
    name: String,
    storage_type: StorageType,
    is_send_and_sync: bool,
    type_key: Option<u64>,
    layout: Layout,
    drop_fn: DropFn,
}

impl View for ComponentDescriptor {
    type V = DescriptorView;

    closed spec fn view(&self) -> DescriptorView {
        DescriptorView {
            name: self.name@,
            storage_type: self.storage_type,
            is_send_and_sync: self.is_send_and_sync,
            type_key: self.type_key,
            size: self.layout.size_spec(),
            align: self.layout.align_spec(),
            drop_fn: self.drop_fn,
        }
    }
}

impl ComponentDescriptor {
    /// Well-formedness: the layout is valid.
    pub closed spec fn inv(&self) -> bool {
        self.layout.inv()
    }

    /// A valid descriptor has a valid layout.
    pub proof fn lemma_inv(&self)
        requires
            self.inv(),
        ensures
            valid_layout(self@.size, self@.align),
    {
    }

    /// The description of a component type. `type_key` is the key of a type of the
    /// program, by which repeated static registrations are recognised; a type that
    /// exists only at run time has none.
    pub fn new_dynamic(
        name: String,
        storage_type: StorageType,
        is_send_and_sync: bool,
        type_key: Option<u64>,
        layout: Layout,
        drop_fn: DropFn,
    ) -> (d: ComponentDescriptor)
        requires
            layout.inv(),
        ensures
            d.inv(),
            d@ == (DescriptorView {
                name: name@,
                storage_type,
                is_send_and_sync,
                type_key,
                size: layout.size_spec(),
                align: layout.align_spec(),
                drop_fn,
            }),
    {
        ComponentDescriptor { name, storage_type, is_send_and_sync, type_key, layout, drop_fn }
    }

    /// The display name.
    pub fn name(&self) -> (s: &str)
        ensures
            s@ == self@.name,
    {
        self.name.as_str()
    }

    /// The storage kind.
    pub fn storage_type(&self) -> (s: StorageType)
        ensures
            s == self@.storage_type,
    {
        self.storage_type
    }

    /// Whether values may cross thread ownership boundaries.
    pub fn is_send_and_sync(&self) -> (b: bool)
        ensures
            b == self@.is_send_and_sync,
    {
        self.is_send_and_sync
    }

    /// The key of the program type described, if any.
    pub fn type_key(&self) -> (k: Option<u64>)
        ensures
            k == self@.type_key,
    {
        self.type_key
    }

    /// The layout of one value.
    pub fn layout(&self) -> (l: Layout)
        requires
            self.inv(),
        ensures
            l.inv(),
            l.size_spec() == self@.size,
            l.align_spec() == self@.align,
    {
        self.layout
    }

    /// What is owed to a value that leaves the world.
    pub fn drop_fn(&self) -> (f: DropFn)
        ensures
            f == self@.drop_fn,
    {
        self.drop_fn
    }
}

/// The registry as a mathematical value: the descriptions in order of registration.
pub struct ComponentsView {
    pub descriptors: Seq<DescriptorView>,
}

impl ComponentsView {
    /// The number of registered component types.
    pub open spec fn len(self) -> nat {
        self.descriptors.len()
    }

    /// Whether `id` names a registered component type.
    pub open spec fn contains(self, id: ComponentId) -> bool {
        id.index < self.descriptors.len()
    }

    /// The description registered under `id`.
    pub open spec fn get(self, id: ComponentId) -> DescriptorView
        recommends
            self.contains(id),
    {
        self.descriptors[id.index as int]
    }

    /// Whether `i` is the first registration under `name`.
    pub open spec fn is_first_named(self, name: Seq<char>, i: int) -> bool {
        &&& 0 <= i < self.descriptors.len()
        &&& self.descriptors[i].name == name
        &&& forall|j: int| 0 <= j < i ==> (#[trigger] self.descriptors[j]).name != name
    }

    /// Whether a registration under `name` exists.
    pub open spec fn has_name(self, name: Seq<char>) -> bool {
        exists|i: int| 0 <= i < self.descriptors.len() && (#[trigger] self.descriptors[i]).name == name
    }

    /// Whether `i` is the first registration with type key `key`.
    pub open spec fn is_first_keyed(self, key: u64, i: int) -> bool {
        &&& 0 <= i < self.descriptors.len()
        &&& self.descriptors[i].type_key == Some(key)
        &&& forall|j: int|
            0 <= j < i ==> (#[trigger] self.descriptors[j]).type_key != Some(key)
    }

    /// Whether a registration with type key `key` exists.
    pub open spec fn has_key(self, key: u64) -> bool {
        exists|i: int|
            0 <= i < self.descriptors.len() && (#[trigger] self.descriptors[i]).type_key == Some(
                key,
            )
    }

    /// The id that a dynamic registration gives: the next one.
    pub open spec fn next_id(self) -> ComponentId {
        ComponentId { index: self.descriptors.len() as usize }
    }

    /// The registry after a dynamic registration of `d`: `d` is added, whatever is
    /// registered already. A registry that has given out every id stays as it is.
    pub open spec fn register_dynamic(self, d: DescriptorView) -> ComponentsView {
        if self.descriptors.len() < usize::MAX {
            ComponentsView { descriptors: self.descriptors.push(d) }
        } else {
            self
        }
    }

    /// Whether a static registration of `d` finds its type registered already.
    pub open spec fn is_known(self, d: DescriptorView) -> bool {
        d.type_key is Some && self.has_key(d.type_key.unwrap())
    }

    /// The id that a static registration of `d` gives: that of the first registration
    /// with the same type key, or the next id where there is none.
    pub open spec fn static_id(self, d: DescriptorView) -> ComponentId {
        if self.is_known(d) {
            ComponentId {
                index: (choose|i: int| self.is_first_keyed(d.type_key.unwrap(), i)) as usize,
            }
        } else {
            self.next_id()
        }
    }

    /// The registry after a static registration of `d`: unchanged where the type is
    /// registered already.
    pub open spec fn register_static(self, d: DescriptorView) -> ComponentsView {
        if self.is_known(d) {
            self
        } else {
            self.register_dynamic(d)
        }
    }

    /// Whether `later` holds every registration of this registry, unchanged and under
    /// the same id.
    pub open spec fn is_prefix_of(self, later: ComponentsView) -> bool {
        self.descriptors.is_prefix_of(later.descriptors)
    }

    /// Among the registrations with a key, a first one exists and is unique.
    pub proof fn lemma_first_keyed(self, key: u64)
        requires
            self.has_key(key),
        ensures
            exists|i: int| self.is_first_keyed(key, i),
            forall|i: int, j: int|
                self.is_first_keyed(key, i) && self.is_first_keyed(key, j) ==> i == j,
    {
        let w = choose|i: int|
            0 <= i < self.descriptors.len() && (#[trigger] self.descriptors[i]).type_key == Some(
                key,
            );
        self.lemma_first_keyed_upto(key, w);
    }

    proof fn lemma_first_keyed_upto(self, key: u64, w: int)
        requires
            0 <= w < self.descriptors.len(),
            self.descriptors[w].type_key == Some(key),
        ensures
            exists|i: int| self.is_first_keyed(key, i),
        decreases w,
    {
        if exists|j: int| 0 <= j < w && (#[trigger] self.descriptors[j]).type_key == Some(key) {
            let j = choose|j: int|
                0 <= j < w && (#[trigger] self.descriptors[j]).type_key == Some(key);
            self.lemma_first_keyed_upto(key, j);
        } else {
            assert(self.is_first_keyed(key, w));
        }
    }

    /// Two dynamic registrations of one description give two different ids.
    pub proof fn lemma_dynamic_ids_differ(self, d: DescriptorView)
        requires
            self.len() + 1 < usize::MAX,
        ensures
            self.next_id() != self.register_dynamic(d).next_id(),
            self.register_dynamic(d).get(self.next_id()) == d,
            self.register_dynamic(d).register_dynamic(d).get(self.register_dynamic(d).next_id())
                == d,
    {
    }

    /// Two static registrations of one type give the same id, and the second changes
    /// nothing.
    pub proof fn lemma_static_ids_agree(self, d: DescriptorView)
        requires
            self.len() < usize::MAX,
            d.type_key is Some,
        ensures
            self.register_static(d).static_id(d) == self.static_id(d),
            self.register_static(d).register_static(d) == self.register_static(d),
            self.register_static(d).contains(self.static_id(d)),
            self.register_static(d).get(self.static_id(d)).type_key == d.type_key,
    {
        let key = d.type_key.unwrap();
        let after = self.register_static(d);
        if self.is_known(d) {
            self.lemma_first_keyed(key);
        } else {
            let n = self.descriptors.len() as int;
            assert(after.descriptors[n].type_key == Some(key));
            assert(after.has_key(key));
            after.lemma_first_keyed(key);
            assert(after.is_first_keyed(key, n)) by {
                assert forall|j: int| 0 <= j < n implies (#[trigger] after.descriptors[j]).type_key
                    != Some(key) by {
                    assert(after.descriptors[j] == self.descriptors[j]);
                }
            }
        }
    }
}

/// The registry of component types. A component type is never unregistered, and its
/// description never changes.
#[derive(Debug)]
pub struct Components {
    descriptors: Vec<ComponentDescriptor>,
}

impl View for Components {
    type V = ComponentsView;

    closed spec fn view(&self) -> ComponentsView {
        ComponentsView { descriptors: Seq::new(self.descriptors@.len(), |i: int| self.descriptors@[i]@) }
    }
}

impl Components {
    /// Well-formedness: every description is valid.
    pub closed spec fn inv(&self) -> bool {
        forall|i: int| 0 <= i < self.descriptors@.len() ==> (#[trigger] self.descriptors@[i]).inv()
    }

    /// In a valid registry every layout is valid and every id fits a handle.
    pub proof fn lemma_inv(&self)
        requires
            self.inv(),
        ensures
            self@.len() <= usize::MAX,
            forall|i: int|
                0 <= i < self@.len() ==> valid_layout(
                    (#[trigger] self@.descriptors[i]).size,
                    self@.descriptors[i].align,
                ),
    {
        assert(self.descriptors.len() == self.descriptors@.len());
        assert forall|i: int| 0 <= i < self@.len() implies valid_layout(
            (#[trigger] self@.descriptors[i]).size,
            self@.descriptors[i].align,
        ) by {
            self.descriptors@[i].lemma_inv();
        }
    }

    /// The empty registry.
    pub fn new() -> (r: Components)
        ensures
            r.inv(),
            r@.descriptors == Seq::<DescriptorView>::empty(),
    {
        let r = Components { descriptors: Vec::new() };
        assert(r@.descriptors =~= Seq::<DescriptorView>::empty());
        r
    }

    /// The number of registered component types.
    pub fn len(&self) -> (n: usize)
        ensures
            n == self@.len(),
    {
        self.descriptors.len()
    }

    /// The description registered under `id`, if any.
    pub fn get_info(&self, id: ComponentId) -> (r: Option<&ComponentDescriptor>)
        requires
            self.inv(),
        ensures
            r is Some <==> self@.contains(id),
            r is Some ==> r.unwrap()@ == self@.get(id) && r.unwrap().inv(),
    {
        if id.index < self.descriptors.len() {
            Some(&self.descriptors[id.index])
        } else {
            None
        }
    }

    /// Registers `descriptor` as a new component type, whether or not one like it is
    /// registered already.
    pub fn register_dynamic(&mut self, descriptor: ComponentDescriptor) -> (id: ComponentId)
        requires
            old(self).inv(),
            descriptor.inv(),
        ensures
            final(self).inv(),
            final(self)@ == old(self)@.register_dynamic(descriptor@),
            id == old(self)@.next_id(),
            id != ComponentId::invalid_spec(),
            final(self)@.contains(id),
            final(self)@.get(id) == descriptor@,
            old(self)@.is_prefix_of(final(self)@),
    {
        let index = self.descriptors.len();
        self.descriptors.push(descriptor);
        assert(self.descriptors.len() == index + 1);
        assert(self@.descriptors =~= old(self)@.descriptors.push(descriptor@));
        ComponentId { index }
    }

    /// The id of the first registration with type key `key`, if any.
    pub fn get_id_by_key(&self, key: u64) -> (r: Option<ComponentId>)
        ensures
            r is Some <==> self@.has_key(key),
            r is Some ==> self@.is_first_keyed(key, r.unwrap().index as int),
    {
        let mut i: usize = 0;
        while i < self.descriptors.len()
            invariant
                i <= self.descriptors@.len(),
                forall|j: int| 0 <= j < i ==> (#[trigger] self@.descriptors[j]).type_key != Some(key),
            decreases self.descriptors@.len() - i,
        {
            match self.descriptors[i].type_key {
                Some(k) => {
                    if k == key {
                        assert(self@.descriptors[i as int].type_key == Some(key));
                        return Some(ComponentId { index: i });
                    }
                },
                None => {},
            }
            i = i + 1;
        }
        None
    }

    /// Registers the program type that `descriptor` describes, unless a type with its
    /// key is registered already; returns the id of the type either way. A descriptor
    /// without a key is registered as a new type.
    pub fn register_static(&mut self, descriptor: ComponentDescriptor) -> (id: ComponentId)
        requires
            old(self).inv(),
            descriptor.inv(),
        ensures
            final(self).inv(),
            final(self)@ == old(self)@.register_static(descriptor@),
            id == old(self)@.static_id(descriptor@),
            id != ComponentId::invalid_spec(),
            final(self)@.contains(id),
            old(self)@.is_prefix_of(final(self)@),
    {
        match descriptor.type_key {
            Some(key) => {
                match self.get_id_by_key(key) {
                    Some(id) => {
                        proof {
                            self@.lemma_first_keyed(key);
                            assert(self.descriptors.len() == self.descriptors@.len());
                        }
                        id
                    },
                    None => self.register_dynamic(descriptor),
                }
            },
            None => self.register_dynamic(descriptor),
        }
    }

    /// The id of the first registration under `name`, if any. Names need not be unique.
    pub fn get_id_by_name(&self, name: &str) -> (r: Option<ComponentId>)
        ensures
            r is Some <==> self@.has_name(name@),
            r is Some ==> self@.is_first_named(name@, r.unwrap().index as int),
            r is Some ==> r.unwrap() != ComponentId::invalid_spec(),
    {
        let mut i: usize = 0;
        while i < self.descriptors.len()
            invariant
                i <= self.descriptors@.len(),
                forall|j: int| 0 <= j < i ==> (#[trigger] self@.descriptors[j]).name != name@,
            decreases self.descriptors@.len() - i,
        {
            if str_eq(self.descriptors[i].name.as_str(), name) {
                assert(self@.descriptors[i as int].name == name@);
                return Some(ComponentId { index: i });
            }
            i = i + 1;
        }
        None
    }
}

/// Whether two strings hold the same characters.
pub fn str_eq(a: &str, b: &str) -> (r: bool)
    ensures
        r == (a@ == b@),
{
    let x = a.as_bytes();
    let y = b.as_bytes();
    proof {
        vstd::utf8::encode_utf8_decode_utf8(a@);
        vstd::utf8::encode_utf8_decode_utf8(b@);
    }
    if x.len() != y.len() {
        return false;
    }
    let mut i: usize = 0;
    while i < x.len()
        invariant
            i <= x@.len(),
            x@.len() == y@.len(),
            x@ == vstd::utf8::encode_utf8(a@),
            y@ == vstd::utf8::encode_utf8(b@),
            forall|j: int| 0 <= j < i ==> x@[j] == y@[j],
        decreases x@.len() - i,
    {
        if x[i] != y[i] {
            return false;
        }
        i = i + 1;
    }
    assert(x@ =~= y@);
    proof {
        vstd::utf8::encode_utf8_decode_utf8(a@);
        vstd::utf8::encode_utf8_decode_utf8(b@);
    }
    true
}

} // verus!
