//! The binding store: an append-only arena of named values together with an
//! index from tag name to the tag's member set.
//!
//! Identifiers handed out by [`Universe::insert`] stay valid for the store's
//! whole lifetime; committed bindings are never updated in place.  Every tag
//! keeps its member identifiers sorted ascending, and a primary tag never
//! holds two members with the same name.

use vstd::prelude::*;
use vstd::pervasive::VecAdditionalExecFns;
use crate::tag::{
    composition_of, op_keeps, result_is_primary, strictly_sorted, merge_difference,
    merge_intersection, merge_symmetric_difference, merge_union, Tag, TagName, TagNameView,
    UniverseOperationOp,
};

verus! {

/// A relation between a name and a value.  The name alone is the identity:
/// a primary tag's uniqueness restriction looks only at the name.
#[derive(Debug)]
pub struct Binding<T> {
    pub name: String,
    pub value: T,
}

impl<T> PartialEq for Binding<T> {
    /// The name is the whole identity: the value never participates.
    fn eq(&self, other: &Self) -> (r: bool) {
        self.name == other.name
    }
}

impl<T> vstd::std_specs::cmp::PartialEqSpecImpl for Binding<T> {
    open spec fn obeys_eq_spec() -> bool {
        true
    }

    open spec fn eq_spec(&self, other: &Binding<T>) -> bool {
        self.name@ == other.name@
    }
}

impl<T> Eq for Binding<T> {

}

/// A request for inserting one binding, built up by the caller and passed to
/// [`Universe::insert`] as a whole.
#[derive(Debug)]
pub struct BindingBuilder<T> {
    pub name: String,
    pub value: Option<T>,
    pub tags: Vec<TagName>,
}

impl<T> BindingBuilder<T> {
    pub fn new() -> (r: Self)
        ensures
            r.name@ == Seq::<char>::empty(),
            r.value is None,
            r.tags@ == Seq::<TagName>::empty(),
    {
        BindingBuilder { name: String::new(), value: None, tags: Vec::new() }
    }

    /// Sets the name portion of the binding.
    pub fn set_name(&mut self, name: String)
        ensures
            final(self).name == name,
            final(self).value == old(self).value,
            final(self).tags == old(self).tags,
    {
        self.name = name;
    }

    /// Sets the value portion of the binding.
    pub fn set_value(&mut self, value: T)
        ensures
            final(self).name == old(self).name,
            final(self).value == Some(value),
            final(self).tags == old(self).tags,
    {
        self.value = Some(value);
    }

    /// Adds the binding to the tag with this name.
    pub fn add_tag(&mut self, tag: TagName)
        ensures
            final(self).name == old(self).name,
            final(self).value == old(self).value,
            final(self).tags@ == old(self).tags@.push(tag),
    {
        self.tags.push(tag);
    }

    /// Removes every requested tag with this name from the request.
    pub fn remove_tag(self, tag: TagName) -> (r: Self)
        ensures
            r.name == self.name,
            r.value == self.value,
            r.tags@ == self.tags@.filter(|t: TagName| t@ != tag@),
    {
        let mut kept: Vec<TagName> = Vec::new();
        let mut i: usize = 0;
        while i < self.tags.len()
            invariant
                i <= self.tags@.len(),
                kept@ == self.tags@.subrange(0, i as int).filter(|t: TagName| t@ != tag@),
            decreases self.tags@.len() - i,
        {
            proof {
                assert(self.tags@.subrange(0, i + 1 as int).drop_last() =~= self.tags@.subrange(
                    0,
                    i as int,
                ));
                reveal_with_fuel(Seq::filter, 2);
            }
            let keep = !self.tags[i].same_name(&tag);
            if keep {
                kept.push(self.tags[i].clone());
            }
            proof {
                assert(self.tags@.subrange(0, i + 1 as int).last() == self.tags@[i as int]);
            }
            i = i + 1;
        }
        proof {
            assert(self.tags@.subrange(0, self.tags@.len() as int) =~= self.tags@);
        }
        BindingBuilder { name: self.name, value: self.value, tags: kept }
    }
}

impl<T> Default for BindingBuilder<T> {
    /// An empty request: no name, no value, no tags.
    fn default() -> (r: Self)
        ensures
            r.name@ == Seq::<char>::empty(),
            r.value is None,
            r.tags@ == Seq::<TagName>::empty(),
    {
        BindingBuilder::new()
    }
}

/// A reference to an entry committed into a [`Universe`]: the binding's
/// identifier together with the tags the entry was inserted under.
#[derive(Debug)]
pub struct UniverseEntry {
    pub binding: usize,
    pub tags: Vec<TagName>,
}

/// The failures the store can report.
#[derive(Debug, Clone, Copy, PartialEq, Eq, Structural)]
pub enum UniverseError {
    /// A requested primary tag already holds a member with the requested
    /// name.
    DuplicateBindingName,
    /// A set-algebra request referenced a tag name absent from the index.
    UnknownTagReference,
    /// A set-algebra request was missing its operands or its operator.
    IncompleteAlgebraRequest,
    /// The ordered-set merge rejected its input as unsorted or duplicated.
    SetAlgebraInputError,
}

/// A request for one set operation over two tags, built by the caller and
/// passed to [`Universe::execute`] as a whole.
#[derive(Debug)]
pub struct UniverseOperationBuilder {
    pub tag_names: Option<(TagName, TagName)>,
    pub op: Option<UniverseOperationOp>,
}

impl UniverseOperationBuilder {
    pub fn new() -> (r: Self)
        ensures
            r.tag_names is None,
            r.op is None,
    {
        UniverseOperationBuilder { tag_names: None, op: None }
    }

    /// Chooses the two operand tags, in order.
    pub fn sets(&mut self, tags: (TagName, TagName))
        ensures
            final(self).tag_names == Some(tags),
            final(self).op == old(self).op,
    {
        self.tag_names = Some(tags);
    }

    /// Chooses the operation.
    pub fn set_operation(&mut self, op: UniverseOperationOp)
        ensures
            final(self).tag_names == old(self).tag_names,
            final(self).op == Some(op),
    {
        self.op = Some(op);
    }
}

impl Default for UniverseOperationBuilder {
    /// A request with no operands and no operation chosen yet.
    fn default() -> (r: Self)
        ensures
            r.tag_names is None,
            r.op is None,
    {
        UniverseOperationBuilder::new()
    }
}

/// Capacity hints for a fresh [`Universe`].
#[derive(Debug)]
pub struct UniverseBuilder {
    pub tag_hashmap_capacity: Option<usize>,
    pub binding_arena_capacity: Option<usize>,
}

impl UniverseBuilder {
    pub fn new() -> (r: Self)
        ensures
            r.tag_hashmap_capacity is None,
            r.binding_arena_capacity is None,
    {
        UniverseBuilder { tag_hashmap_capacity: None, binding_arena_capacity: None }
    }

    /// Reserves room in the tag index for this many tags.
    pub fn with_tag_hashmap_capacity(&mut self, capacity: usize)
        ensures
            final(self).tag_hashmap_capacity == Some(capacity),
            final(self).binding_arena_capacity == old(self).binding_arena_capacity,
    {
        self.tag_hashmap_capacity = Some(capacity);
    }

    /// Reserves room in the binding arena for this many bindings.
    pub fn with_binding_arena_capacity(&mut self, capacity: usize)
        ensures
            final(self).tag_hashmap_capacity == old(self).tag_hashmap_capacity,
            final(self).binding_arena_capacity == Some(capacity),
    {
        self.binding_arena_capacity = Some(capacity);
    }
}

impl Default for UniverseBuilder {
    /// No capacity hints.
    fn default() -> (r: Self)
        ensures
            r.tag_hashmap_capacity is None,
            r.binding_arena_capacity is None,
    {
        UniverseBuilder::new()
    }
}

/// Spec-level contents of one tag: its kind and its member identifiers.
pub struct TagModel {
    pub primary: bool,
    pub ids: Seq<usize>,
}

/// Spec-level contents of a whole store: the arena of bindings in insertion
/// order, and the map from tag name to tag contents.
pub struct UniverseModel<T> {
    pub arena: Seq<Binding<T>>,
    pub index: Map<TagNameView, TagModel>,
}

/// The spec contents of an exec [`Tag`].
pub open spec fn tag_model(t: Tag) -> TagModel {
    TagModel { primary: t.spec_is_primary(), ids: t.ids() }
}

/// The map described by an association list with unique keys.
pub open spec fn assoc_map(s: Seq<(TagName, Tag)>) -> Map<TagNameView, TagModel>
    decreases s.len(),
{
    if s.len() == 0 {
        Map::empty()
    } else {
        assoc_map(s.drop_last()).insert(s.last().0@, tag_model(s.last().1))
    }
}

/// Whether the tag contents `tm` hold a member whose binding is named
/// `name` in the arena.
pub open spec fn tag_member_named<T>(
    arena: Seq<Binding<T>>,
    tm: TagModel,
    name: Seq<char>,
) -> bool {
    exists|k: int| 0 <= k < tm.ids.len() && arena[tm.ids[k] as int].name@ == name
}

/// Whether inserting `name` under the tags `tags` would hand a second member
/// with that name to some requested primary tag.
pub open spec fn primary_conflict<T>(
    m: UniverseModel<T>,
    tags: Seq<TagName>,
    name: Seq<char>,
) -> bool {
    exists|i: int|
        0 <= i < tags.len() && tags[i]@.is_primary() && m.index.contains_key(tags[i]@)
            && tag_member_named(m.arena, m.index[tags[i]@], name)
}

/// Well-formedness of a store's spec contents: every indexed tag keeps its
/// kind consistent with its name, its member list sorted ascending, each
/// member inside the arena, and, for a primary tag, member names unique.
pub open spec fn model_wf<T>(m: UniverseModel<T>) -> bool {
    forall|t: TagNameView| #[trigger] m.index.contains_key(t) ==> {
        &&& m.index[t].primary == t.is_primary()
        &&& strictly_sorted(m.index[t].ids)
        &&& forall|k: int| 0 <= k < m.index[t].ids.len() ==> m.index[t].ids[k] < m.arena.len()
        &&& (m.index[t].primary ==> forall|k: int, l: int|
            0 <= k < l < m.index[t].ids.len() ==> m.arena[m.index[t].ids[k] as int].name@
                != m.arena[m.index[t].ids[l] as int].name@)
    }
}

/// The tag index after appending the fresh identifier `id` to every
/// requested tag, in request order, creating tags absent from the index and
/// adding `id` at most once per tag.
pub open spec fn insert_tags_model(
    index: Map<TagNameView, TagModel>,
    tags: Seq<TagName>,
    id: usize,
) -> Map<TagNameView, TagModel>
    decreases tags.len(),
{
    if tags.len() == 0 {
        index
    } else {
        let rest = insert_tags_model(index, tags.drop_last(), id);
        let t = tags.last()@;
        let tm = if rest.contains_key(t) {
            rest[t]
        } else {
            TagModel { primary: t.is_primary(), ids: Seq::empty() }
        };
        let tm2 = if tm.ids.contains(id) {
            tm
        } else {
            TagModel { primary: tm.primary, ids: tm.ids.push(id) }
        };
        rest.insert(t, tm2)
    }
}

/// The whole store after committing one binding: the arena grows by the new
/// binding, whose identifier joins every requested tag.
pub open spec fn insert_model<T>(
    m: UniverseModel<T>,
    name: String,
    value: T,
    tags: Seq<TagName>,
) -> UniverseModel<T> {
    UniverseModel {
        arena: m.arena.push(Binding { name, value }),
        index: insert_tags_model(m.index, tags, m.arena.len() as usize),
    }
}

/// A collection of tags and their bindings: the resolved program state.
#[derive(Debug)]
pub struct Universe<T> {
    bindings: Vec<Binding<T>>,
    tags: Vec<(TagName, Tag)>,
}

impl<T> Universe<T> {
    /// The store's spec contents.
    pub closed spec fn model(self) -> UniverseModel<T> {
        UniverseModel { arena: self.bindings@, index: assoc_map(self.tags@) }
    }

    /// The contents of a store with nothing in it.
    pub open spec fn empty_model() -> UniverseModel<T> {
        UniverseModel { arena: Seq::empty(), index: Map::empty() }
    }

    /// The store's invariant: association keys are unique and the indexed
    /// contents are well-formed.
    pub closed spec fn wf(self) -> bool {
        &&& forall|i: int, j: int|
            0 <= i < j < self.tags@.len() ==> self.tags@[i].0@ != self.tags@[j].0@
        &&& model_wf(self.model())
    }

    /// Creates a store from the builder's capacity hints.
    pub fn new(builder: &UniverseBuilder) -> (u: Universe<T>)
        ensures
            u.wf(),
            u.model() == Universe::<T>::empty_model(),
            u.model().arena == Seq::<Binding<T>>::empty(),
            u.model().index == Map::<TagNameView, TagModel>::empty(),
    {
        let bindings: Vec<Binding<T>> = match builder.binding_arena_capacity {
            Some(capacity) => Vec::with_capacity(capacity),
            None => Vec::new(),
        };
        let tags: Vec<(TagName, Tag)> = match builder.tag_hashmap_capacity {
            Some(capacity) => Vec::with_capacity(capacity),
            None => Vec::new(),
        };
        Universe { bindings, tags }
    }

    /// Retrieves a binding by the identifier an insert handed out.
    pub fn get(&self, id: usize) -> (r: Option<&Binding<T>>)
        ensures
            id < self.model().arena.len() ==> (r matches Some(b) && *b == self.model().arena[id as int]),
            id >= self.model().arena.len() ==> r is None,
    {
        if id < self.bindings.len() {
            Some(&self.bindings[id])
        } else {
            None
        }
    }
}

/// With unique keys, the map of an association list holds exactly the
/// listed keys, each mapped to its entry's contents.
proof fn lemma_assoc_map_props(s: Seq<(TagName, Tag)>)
    requires
        forall|i: int, j: int| 0 <= i < j < s.len() ==> s[i].0@ != s[j].0@,
    ensures
        forall|n: TagNameView| #[trigger]
            assoc_map(s).contains_key(n) <==> exists|i: int| 0 <= i < s.len() && s[i].0@ == n,
        forall|i: int|
            0 <= i < s.len() ==> assoc_map(s).contains_key(#[trigger] s[i].0@) && assoc_map(s)[
                s[i].0@
            ] == tag_model(s[i].1),
    decreases s.len(),
{
    if s.len() > 0 {
        lemma_assoc_map_props(s.drop_last());
        assert(forall|i: int| 0 <= i < s.len() - 1 ==> s.drop_last()[i] == s[i]);
        assert forall|i: int| 0 <= i < s.len() implies assoc_map(s).contains_key(
            #[trigger] s[i].0@,
        ) && assoc_map(s)[s[i].0@] == tag_model(s[i].1) by {
            if i < s.len() - 1 {
                assert(s[i].0@ != s[s.len() - 1].0@);
            }
        }
    }
}

/// Appending a fresh key to an association list inserts it into the map.
proof fn lemma_assoc_map_push(s: Seq<(TagName, Tag)>, name: TagName, tag: Tag)
    ensures
        assoc_map(s.push((name, tag))) == assoc_map(s).insert(name@, tag_model(tag)),
{
    assert(s.push((name, tag)).drop_last() =~= s);
}

/// Replacing the tag of entry `j`, key unchanged, overwrites that key in
/// the map.
proof fn lemma_assoc_map_update(s: Seq<(TagName, Tag)>, j: int, tag: Tag)
    requires
        forall|i: int, k: int| 0 <= i < k < s.len() ==> s[i].0@ != s[k].0@,
        0 <= j < s.len(),
    ensures
        assoc_map(s.update(j, (s[j].0, tag))) == assoc_map(s).insert(s[j].0@, tag_model(tag)),
    decreases s.len(),
{
    let s2 = s.update(j, (s[j].0, tag));
    if j == s.len() - 1 {
        assert(s2.drop_last() =~= s.drop_last());
        assert(assoc_map(s2) =~= assoc_map(s).insert(s[j].0@, tag_model(tag)));
    } else {
        lemma_assoc_map_update(s.drop_last(), j, tag);
        assert(s2.drop_last() =~= s.drop_last().update(j, (s[j].0, tag)));
        assert(s.drop_last()[j] == s[j]);
        assert(s2.last() == s.last());
        assert(s[j].0@ != s.last().0@);
        assert(assoc_map(s2) =~= assoc_map(s).insert(s[j].0@, tag_model(tag)));
    }
}

impl<T> Universe<T> {
    /// Position of the tag with this name in the association list.
    fn find_tag_index(&self, name: &TagName) -> (r: Option<usize>)
        requires
            self.wf(),
        ensures
            r matches Some(j) ==> j < self.tags@.len() && self.tags@[j as int].0@ == name@
                && self.model().index.contains_key(name@) && self.model().index[name@]
                == tag_model(self.tags@[j as int].1),
            r is None ==> !self.model().index.contains_key(name@),
    {
        proof {
            lemma_assoc_map_props(self.tags@);
        }
        let mut i: usize = 0;
        while i < self.tags.len()
            invariant
                self.wf(),
                i <= self.tags@.len(),
                forall|k: int| 0 <= k < i ==> self.tags@[k].0@ != name@,
            decreases self.tags@.len() - i,
        {
            if self.tags[i].0.same_name(name) {
                proof {
                    lemma_assoc_map_props(self.tags@);
                    assert(self.tags@[i as int].0@ == name@);
                    assert(assoc_map(self.tags@).contains_key(self.tags@[i as int].0@));
                    assert(assoc_map(self.tags@)[self.tags@[i as int].0@] == tag_model(
                        self.tags@[i as int].1,
                    ));
                }
                return Some(i);
            }
            i = i + 1;
        }
        None
    }

    /// Whether the tag of entry `j` holds a member with this name.
    fn member_named(&self, j: usize, name: &String) -> (r: bool)
        requires
            self.wf(),
            j < self.tags@.len(),
        ensures
            r == tag_member_named(
                self.model().arena,
                tag_model(self.tags@[j as int].1),
                name@,
            ),
    {
        proof {
            lemma_assoc_map_props(self.tags@);
        }
        let ids = self.tags[j].1.as_slice();
        let ghost key = self.tags@[j as int].0@;
        assert(self.model().index.contains_key(key));
        let mut k: usize = 0;
        let mut found = false;
        while k < ids.len()
            invariant
                k <= ids@.len(),
                ids@ == self.tags@[j as int].1.ids(),
                self.wf(),
                j < self.tags@.len(),
                self.model().index.contains_key(key),
                self.model().index[key] == tag_model(self.tags@[j as int].1),
                key == self.tags@[j as int].0@,
                forall|l: int| 0 <= l < ids@.len() ==> ids@[l] < self.model().arena.len(),
                found == exists|l: int|
                    0 <= l < k && self.model().arena[ids@[l] as int].name@ == name@,
            decreases ids@.len() - k,
        {
            if self.bindings[ids[k]].name == *name {
                found = true;
                proof {
                    assert(self.model().arena[ids@[k as int] as int].name@ == name@);
                }
            }
            k = k + 1;
        }
        found
    }

    /// Commits one binding: allocates a fresh identifier for the request's
    /// name and value and adds it to every requested tag.
    ///
    /// Every requested primary tag is validated against the requested name
    /// *before* anything is allocated: on a duplicate name the store is
    /// left exactly as it was.
    pub fn insert(&mut self, request: BindingBuilder<T>) -> (r: Result<
        UniverseEntry,
        UniverseError,
    >)
        requires
            old(self).wf(),
            request.value is Some,
        ensures
            final(self).wf(),
            r is Ok <==> !primary_conflict(old(self).model(), request.tags@, request.name@),
            r matches Err(e) ==> e == UniverseError::DuplicateBindingName && final(self).model()
                == old(self).model(),
            r matches Ok(entry) ==> (request.value matches Some(v) && {
                &&& entry.binding == old(self).model().arena.len()
                &&& entry.tags == request.tags
                &&& final(self).model() == insert_model(
                    old(self).model(),
                    request.name,
                    v,
                    request.tags@,
                )
            }),
    {
        let BindingBuilder { name, value, tags: req_tags } = request;
        proof {
            assert(name == request.name);
            assert(req_tags == request.tags);
            assert(value == request.value);
        }
        let mut i: usize = 0;
        while i < req_tags.len()
            invariant
                old(self).wf(),
                self.bindings@ == old(self).bindings@,
                self.tags@ == old(self).tags@,
                name == request.name,
                req_tags == request.tags,
                i <= req_tags@.len(),
                forall|k: int|
                    0 <= k < i ==> !(req_tags@[k]@.is_primary()
                        && old(self).model().index.contains_key(req_tags@[k]@)
                        && tag_member_named(
                        old(self).model().arena,
                        old(self).model().index[req_tags@[k]@],
                        name@,
                    )),
            decreases req_tags@.len() - i,
        {
            proof {
                assert(self.model() == old(self).model());
            }
            let t = &req_tags[i];
            if t.is_primary() {
                match self.find_tag_index(t) {
                    Some(j) => {
                        if self.member_named(j, &name) {
                            proof {
                                assert(primary_conflict(
                                    old(self).model(),
                                    req_tags@,
                                    name@,
                                )) by {
                                    assert(req_tags@[i as int]@.is_primary()
                                        && old(self).model().index.contains_key(
                                        req_tags@[i as int]@,
                                    ) && tag_member_named(
                                        old(self).model().arena,
                                        old(self).model().index[req_tags@[i as int]@],
                                        name@,
                                    ));
                                }
                            }
                            return Err(UniverseError::DuplicateBindingName);
                        }
                    },
                    None => {},
                }
            }
            i = i + 1;
        }
        proof {
            assert(!primary_conflict(old(self).model(), req_tags@, name@));
        }
        let id = self.bindings.len();
        let v = match value {
            Some(v) => v,
            None => vstd::pervasive::unreached(),
        };
        let ghost nb = Binding { name: name, value: v };
        let ghost m0 = old(self).model();
        self.bindings.push(Binding { name, value: v });
        let mut i: usize = 0;
        while i < req_tags.len()
            invariant
                model_wf(m0),
                m0 == old(self).model(),
                !primary_conflict(m0, req_tags@, nb.name@),
                nb.name == request.name,
                req_tags == request.tags,
                request.value == Some(nb.value),
                id == m0.arena.len(),
                self.bindings@ == m0.arena.push(nb),
                forall|p: int, q: int|
                    0 <= p < q < self.tags@.len() ==> self.tags@[p].0@ != self.tags@[q].0@,
                i <= req_tags@.len(),
                assoc_map(self.tags@) == insert_tags_model(
                    m0.index,
                    req_tags@.subrange(0, i as int),
                    id,
                ),
            decreases req_tags@.len() - i,
        {
            let ghost sub_i = req_tags@.subrange(0, i as int);
            let ghost sub_i1 = req_tags@.subrange(0, i + 1 as int);
            proof {
                assert(sub_i1.drop_last() =~= sub_i);
                assert(sub_i1.last() == req_tags@[i as int]);
                assert(forall|k: int| 0 <= k < i ==> sub_i[k] == req_tags@[k]);
                assert forall|k: int| 0 <= k < sub_i.len() implies !(sub_i[k]@.is_primary()
                    && m0.index.contains_key(sub_i[k]@) && tag_member_named(
                    m0.arena,
                    m0.index[sub_i[k]@],
                    nb.name@,
                )) by {
                    if sub_i[k]@.is_primary() && m0.index.contains_key(sub_i[k]@)
                        && tag_member_named(m0.arena, m0.index[sub_i[k]@], nb.name@) {
                        assert(primary_conflict(m0, req_tags@, nb.name@));
                    }
                }
                assert(!primary_conflict(m0, sub_i, nb.name@));
                lemma_insert_model_wf(m0, nb.name, nb.value, sub_i);
                assert(self.model() == insert_model(m0, nb.name, nb.value, sub_i));
                assert(self.wf());
                lemma_insert_tags_model_props(m0.index, sub_i, id);
            }
            let t = &req_tags[i];
            match self.find_tag_index(t) {
                Some(j) => {
                    let ghost cur = tag_model(self.tags@[j as int].1);
                    proof {
                        // the current contents of tag `t` either already
                        // gained `id` earlier in this request, or are
                        // exactly what the store held before the insert
                        if tags_mention(sub_i, t@) {
                            assert(cur == tag_after_insert(m0.index, t@, id));
                        } else {
                            assert(cur == if m0.index.contains_key(t@) {
                                m0.index[t@]
                            } else {
                                TagModel { primary: t@.is_primary(), ids: Seq::empty() }
                            });
                        }
                        assert(strictly_sorted(cur.ids) && forall|k: int|
                            0 <= k < cur.ids.len() ==> cur.ids[k] <= id);
                    }
                    let is_p = self.tags[j].1.is_primary();
                    let ids_ref = self.tags[j].1.as_slice();
                    let mut new_ids: Vec<usize> = Vec::new();
                    let mut k: usize = 0;
                    while k < ids_ref.len()
                        invariant
                            k <= ids_ref@.len(),
                            new_ids@ == ids_ref@.subrange(0, k as int),
                        decreases ids_ref@.len() - k,
                    {
                        new_ids.push(ids_ref[k]);
                        proof {
                            assert(new_ids@ =~= ids_ref@.subrange(0, k + 1 as int));
                        }
                        k = k + 1;
                    }
                    proof {
                        assert(new_ids@ =~= ids_ref@);
                    }
                    let has_id = new_ids.len() > 0 && new_ids[new_ids.len() - 1] == id;
                    proof {
                        assert(has_id == cur.ids.contains(id)) by {
                            if cur.ids.contains(id) {
                                let l = choose|l: int|
                                    0 <= l < cur.ids.len() && cur.ids[l] == id;
                                if l < cur.ids.len() - 1 {
                                    assert(cur.ids[l] < cur.ids[cur.ids.len() - 1]);
                                }
                            } else if new_ids.len() > 0 {
                                assert(cur.ids.contains(cur.ids[cur.ids.len() - 1]));
                            }
                        }
                    }
                    if !has_id {
                        new_ids.push(id);
                    }
                    let new_tag = if is_p {
                        Tag::Primary(new_ids)
                    } else {
                        Tag::Secondary(new_ids)
                    };
                    proof {
                        assert(tag_model(new_tag) == tag_after_insert(m0.index, t@, id));
                    }
                    let key = self.tags[j].0.clone();
                    let ghost tags_before = self.tags@;
                    let ghost new_tag_snapshot = new_tag;
                    self.tags.set(j, (key, new_tag));
                    proof {
                        assert(self.tags@ == tags_before.update(
                            j as int,
                            (tags_before[j as int].0, new_tag_snapshot),
                        ));
                        lemma_assoc_map_update(tags_before, j as int, new_tag_snapshot);
                    }
                },
                None => {
                    proof {
                        lemma_assoc_map_props(self.tags@);
                    }
                    let new_tag = if t.is_primary() {
                        let mut ids: Vec<usize> = Vec::new();
                        ids.push(id);
                        Tag::Primary(ids)
                    } else {
                        let mut ids: Vec<usize> = Vec::new();
                        ids.push(id);
                        Tag::Secondary(ids)
                    };
                    proof {
                        assert(tag_model(new_tag).ids =~= Seq::<usize>::empty().push(id));
                        assert(tag_model(new_tag) == tag_after_insert(m0.index, t@, id));
                    }
                    let key = t.clone();
                    let ghost tags_before = self.tags@;
                    let ghost new_tag_snapshot = new_tag;
                    self.tags.push((key, new_tag));
                    proof {
                        assert(self.tags@ == tags_before.push((
                            req_tags@[i as int],
                            new_tag_snapshot,
                        )));
                        lemma_assoc_map_push(tags_before, req_tags@[i as int], new_tag_snapshot);
                    }
                },
            }
            proof {
                assert(assoc_map(self.tags@) =~= insert_tags_model(m0.index, sub_i1, id));
            }
            i = i + 1;
        }
        proof {
            assert(req_tags@.subrange(0, req_tags@.len() as int) =~= req_tags@);
            lemma_insert_model_wf(m0, nb.name, nb.value, req_tags@);
            assert(self.model() == insert_model(m0, nb.name, nb.value, req_tags@));
            assert(self.wf());
        }
        Ok(UniverseEntry { binding: id, tags: req_tags })
    }

    /// Performs one set operation over two of the store's tags and returns
    /// the resulting tag, classified by the fixed kind table.
    ///
    /// An incomplete request is rejected before the operand tags are looked
    /// up; a complete request over tags the index knows always succeeds.
    pub fn execute(&self, request: &UniverseOperationBuilder) -> (r: Result<Tag, UniverseError>)
        requires
            self.wf(),
        ensures
            (request.tag_names is None || request.op is None) <==> r == Err::<Tag, UniverseError>(
                UniverseError::IncompleteAlgebraRequest,
            ),
            request.tag_names matches Some((a, b)) ==> (request.op is Some ==> (r == Err::<
                Tag,
                UniverseError,
            >(UniverseError::UnknownTagReference) <==> !(self.model().index.contains_key(a@)
                && self.model().index.contains_key(b@)))),
            request.tag_names matches Some((a, b)) ==> (request.op matches Some(op) ==> ((
            self.model().index.contains_key(a@) && self.model().index.contains_key(b@)) ==> (r
                matches Ok(t) && {
                &&& t.spec_is_primary() == result_is_primary(
                    composition_of(a@.is_primary(), b@.is_primary()),
                    op,
                )
                &&& strictly_sorted(t.ids())
                &&& forall|x: usize|
                    t.ids().contains(x) <==> op_keeps(
                        op,
                        self.model().index[a@].ids.contains(x),
                        self.model().index[b@].ids.contains(x),
                    )
            }))),
    {
        let (a, b) = match &request.tag_names {
            Some(pair) => (&pair.0, &pair.1),
            None => { return Err(UniverseError::IncompleteAlgebraRequest) },
        };
        let op = match &request.op {
            Some(op) => *op,
            None => { return Err(UniverseError::IncompleteAlgebraRequest) },
        };
        let ja = match self.find_tag_index(a) {
            Some(j) => j,
            None => { return Err(UniverseError::UnknownTagReference) },
        };
        let jb = match self.find_tag_index(b) {
            Some(j) => j,
            None => { return Err(UniverseError::UnknownTagReference) },
        };
        let va = self.tags[ja].1.as_slice();
        let vb = self.tags[jb].1.as_slice();
        let merged = match op {
            UniverseOperationOp::Union => merge_union(va, vb),
            UniverseOperationOp::Intersection => merge_intersection(va, vb),
            UniverseOperationOp::Difference => merge_difference(va, vb),
            UniverseOperationOp::SymmetricDifference => merge_symmetric_difference(va, vb),
        };
        let set = match merged {
            Some(v) => v,
            None => { return Err(UniverseError::SetAlgebraInputError) },
        };
        if result_is_primary_exec(a.is_primary(), b.is_primary(), op) {
            Ok(Tag::Primary(set))
        } else {
            Ok(Tag::Secondary(set))
        }
    }
}

/// The contents of tag `t` after the fresh identifier `id` was offered to
/// it: created empty if absent from the index, with `id` appended unless
/// already a member.
pub open spec fn tag_after_insert(
    index: Map<TagNameView, TagModel>,
    t: TagNameView,
    id: usize,
) -> TagModel {
    let tm = if index.contains_key(t) {
        index[t]
    } else {
        TagModel { primary: t.is_primary(), ids: Seq::empty() }
    };
    if tm.ids.contains(id) {
        tm
    } else {
        TagModel { primary: tm.primary, ids: tm.ids.push(id) }
    }
}

/// Whether some requested tag is named `t`.
pub open spec fn tags_mention(tags: Seq<TagName>, t: TagNameView) -> bool {
    exists|i: int| 0 <= i < tags.len() && tags[i]@ == t
}

/// What `insert_tags_model` does, key by key: every mentioned tag ends up
/// as `tag_after_insert` describes, every other key stays untouched.
pub proof fn lemma_insert_tags_model_props(
    index: Map<TagNameView, TagModel>,
    tags: Seq<TagName>,
    id: usize,
)
    ensures
        forall|t: TagNameView| #[trigger]
            insert_tags_model(index, tags, id).contains_key(t) <==> index.contains_key(t)
                || tags_mention(tags, t),
        forall|t: TagNameView|
            tags_mention(tags, t) ==> #[trigger] insert_tags_model(index, tags, id)[t]
                == tag_after_insert(index, t, id),
        forall|t: TagNameView|
            !tags_mention(tags, t) && index.contains_key(t) ==> #[trigger] insert_tags_model(
                index,
                tags,
                id,
            )[t] == index[t],
    decreases tags.len(),
{
    if tags.len() > 0 {
        let prefix = tags.drop_last();
        lemma_insert_tags_model_props(index, prefix, id);
        let u = tags.last()@;
        let rest = insert_tags_model(index, prefix, id);
        assert forall|t: TagNameView| tags_mention(tags, t) implies tags_mention(prefix, t) || t
            == u by {
            let i = choose|i: int| 0 <= i < tags.len() && tags[i]@ == t;
            if i < tags.len() - 1 {
                assert(prefix[i] == tags[i]);
            }
        }
        assert forall|t: TagNameView| tags_mention(prefix, t) implies tags_mention(tags, t) by {
            let i = choose|i: int| 0 <= i < prefix.len() && prefix[i]@ == t;
            assert(tags[i] == prefix[i]);
        }
        assert(tags_mention(tags, u)) by {
            assert(tags[tags.len() - 1]@ == u);
        }
        assert(tag_after_insert(index, u, id).ids.contains(id)) by {
            let tm = if index.contains_key(u) {
                index[u]
            } else {
                TagModel { primary: u.is_primary(), ids: Seq::empty() }
            };
            if !tm.ids.contains(id) {
                assert(tm.ids.push(id)[tm.ids.len() as int] == id);
            }
        }
        if tags_mention(prefix, u) {
            assert(insert_tags_model(index, tags, id) == rest.insert(u, rest[u]));
            assert(insert_tags_model(index, tags, id) =~= rest.insert(u, rest[u]));
            assert(rest.insert(u, rest[u]) =~= rest);
        }
    }
}

/// Committing a conflict-free binding keeps the store's contents well
/// formed.
pub proof fn lemma_insert_model_wf<T>(
    m: UniverseModel<T>,
    name: String,
    value: T,
    tags: Seq<TagName>,
)
    requires
        model_wf(m),
        m.arena.len() <= usize::MAX,
        !primary_conflict(m, tags, name@),
    ensures
        model_wf(insert_model(m, name, value, tags)),
{
    let id = m.arena.len() as usize;
    let m2 = insert_model(m, name, value, tags);
    lemma_insert_tags_model_props(m.index, tags, id);
    assert forall|t: TagNameView| #[trigger] m2.index.contains_key(t) implies {
        &&& m2.index[t].primary == t.is_primary()
        &&& strictly_sorted(m2.index[t].ids)
        &&& forall|k: int| 0 <= k < m2.index[t].ids.len() ==> m2.index[t].ids[k] < m2.arena.len()
        &&& (m2.index[t].primary ==> forall|k: int, l: int|
            0 <= k < l < m2.index[t].ids.len() ==> m2.arena[m2.index[t].ids[k] as int].name@
                != m2.arena[m2.index[t].ids[l] as int].name@)
    } by {
        if tags_mention(tags, t) {
            let base = if m.index.contains_key(t) {
                m.index[t]
            } else {
                TagModel { primary: t.is_primary(), ids: Seq::empty() }
            };
            assert(forall|k: int| 0 <= k < base.ids.len() ==> base.ids[k] < id);
            assert(!base.ids.contains(id)) by {
                if base.ids.contains(id) {
                    let k = choose|k: int| 0 <= k < base.ids.len() && base.ids[k] == id;
                }
            }
            let ids2 = base.ids.push(id);
            assert(m2.index[t] == TagModel { primary: base.primary, ids: ids2 });
            assert(strictly_sorted(ids2)) by {
                assert(forall|k: int|
                    0 <= k < ids2.len() - 1 ==> ids2[k] == base.ids[k] && ids2[k] < id);
            }
            assert(forall|k: int| 0 <= k < ids2.len() ==> ids2[k] < m2.arena.len());
            if m2.index[t].primary {
                let i = choose|i: int| 0 <= i < tags.len() && tags[i]@ == t;
                assert(!tag_member_named(m.arena, base, name@)) by {
                    if m.index.contains_key(t) && tag_member_named(m.arena, m.index[t], name@) {
                        assert(primary_conflict(m, tags, name@));
                    }
                }
                assert forall|k: int, l: int| 0 <= k < l < ids2.len() implies m2.arena[ids2[k] as int].name@
                    != m2.arena[ids2[l] as int].name@ by {
                    if l < ids2.len() - 1 {
                        assert(m2.arena[ids2[k] as int] == m.arena[base.ids[k] as int]);
                        assert(m2.arena[ids2[l] as int] == m.arena[base.ids[l] as int]);
                    } else {
                        assert(m2.arena[ids2[l] as int].name@ == name@);
                        assert(m2.arena[ids2[k] as int] == m.arena[base.ids[k] as int]);
                        if m2.arena[ids2[k] as int].name@ == name@ {
                            assert(tag_member_named(m.arena, base, name@));
                        }
                    }
                }
            }
        } else {
            assert(m2.index[t] == m.index[t]);
            assert(forall|k: int|
                0 <= k < m.index[t].ids.len() ==> m2.arena[m.index[t].ids[k] as int]
                    == m.arena[m.index[t].ids[k] as int]);
        }
    }
}

/// Committing a binding named `n` under a primary tag makes any later
/// request that asks for that tag a duplicate for `n`: the second insert of
/// the same name must fail, whatever else the two requests ask for.
pub proof fn lemma_insert_makes_duplicate<T>(
    m: UniverseModel<T>,
    name: String,
    value: T,
    tags: Seq<TagName>,
    tags2: Seq<TagName>,
    i: int,
    j: int,
)
    requires
        m.arena.len() <= usize::MAX,
        0 <= i < tags.len(),
        0 <= j < tags2.len(),
        tags[i]@.is_primary(),
        tags2[j]@ == tags[i]@,
    ensures
        primary_conflict(insert_model(m, name, value, tags), tags2, name@),
{
    let id = m.arena.len() as usize;
    let m2 = insert_model(m, name, value, tags);
    lemma_insert_tags_model_props(m.index, tags, id);
    let t = tags[i]@;
    assert(tags_mention(tags, t));
    assert(m2.index.contains_key(t));
    assert(m2.index[t] == tag_after_insert(m.index, t, id));
    assert(m2.index[t].ids.contains(id)) by {
        let tm = if m.index.contains_key(t) {
            m.index[t]
        } else {
            TagModel { primary: t.is_primary(), ids: Seq::empty() }
        };
        if !tm.ids.contains(id) {
            assert(tm.ids.push(id)[tm.ids.len() as int] == id);
        }
    }
    assert(m2.arena[id as int].name@ == name@);
    assert(tag_member_named(m2.arena, m2.index[t], name@)) by {
        let k = choose|k: int| 0 <= k < m2.index[t].ids.len() && m2.index[t].ids[k] == id;
        assert(m2.arena[m2.index[t].ids[k] as int].name@ == name@);
    }
}

/// A request whose tags are all secondary never collides with anything: the
/// uniqueness restriction looks only at primary tags.
pub proof fn lemma_secondary_insert_never_conflicts<T>(
    m: UniverseModel<T>,
    tags: Seq<TagName>,
    name: Seq<char>,
)
    requires
        forall|i: int| 0 <= i < tags.len() ==> !tags[i]@.is_primary(),
    ensures
        !primary_conflict(m, tags, name),
{
}

/// Committing a binding touches only its requested tags: a later request
/// that shares no tag with it conflicts exactly when it already conflicted
/// before the commit.  In particular the same name can enter one secondary
/// and one primary tag, in either order.
pub proof fn lemma_insert_conflict_frame<T>(
    m: UniverseModel<T>,
    name: String,
    value: T,
    tags: Seq<TagName>,
    tags2: Seq<TagName>,
    name2: Seq<char>,
)
    requires
        model_wf(m),
        m.arena.len() <= usize::MAX,
        forall|i: int, j: int|
            0 <= i < tags.len() && 0 <= j < tags2.len() ==> tags[i]@ != tags2[j]@,
    ensures
        primary_conflict(insert_model(m, name, value, tags), tags2, name2) == primary_conflict(
            m,
            tags2,
            name2,
        ),
{
    let id = m.arena.len() as usize;
    let m2 = insert_model(m, name, value, tags);
    lemma_insert_tags_model_props(m.index, tags, id);
    assert forall|j: int| 0 <= j < tags2.len() implies !tags_mention(tags, tags2[j]@) by {
        if tags_mention(tags, tags2[j]@) {
            let i = choose|i: int| 0 <= i < tags.len() && tags[i]@ == tags2[j]@;
        }
    }
    assert forall|j: int|
        0 <= j < tags2.len() && tags2[j]@.is_primary() && m2.index.contains_key(
            tags2[j]@,
        ) implies (m.index.contains_key(tags2[j]@) && m2.index[tags2[j]@] == m.index[tags2[j]@]
        && (tag_member_named(m2.arena, m2.index[tags2[j]@], name2) == tag_member_named(
        m.arena,
        m.index[tags2[j]@],
        name2,
    ))) by {
        let t = tags2[j]@;
        assert(m.index.contains_key(t));
        assert(m2.index[t] == m.index[t]);
        assert(forall|k: int|
            0 <= k < m.index[t].ids.len() ==> m2.arena[m.index[t].ids[k] as int]
                == m.arena[m.index[t].ids[k] as int]);
    }
    if primary_conflict(m, tags2, name2) {
        let j = choose|j: int|
            0 <= j < tags2.len() && tags2[j]@.is_primary() && m.index.contains_key(tags2[j]@)
                && tag_member_named(m.arena, m.index[tags2[j]@], name2);
        assert(m2.index.contains_key(tags2[j]@));
        assert(primary_conflict(m2, tags2, name2));
    }
    if primary_conflict(m2, tags2, name2) {
        let j = choose|j: int|
            0 <= j < tags2.len() && tags2[j]@.is_primary() && m2.index.contains_key(tags2[j]@)
                && tag_member_named(m2.arena, m2.index[tags2[j]@], name2);
        assert(primary_conflict(m, tags2, name2));
    }
}

/// The kind table, executed: see [`result_is_primary`].
fn result_is_primary_exec(a_primary: bool, b_primary: bool, op: UniverseOperationOp) -> (r: bool)
    ensures
        r == result_is_primary(composition_of(a_primary, b_primary), op),
{
    match op {
        UniverseOperationOp::Union => false,
        UniverseOperationOp::Intersection => a_primary || b_primary,
        UniverseOperationOp::Difference => a_primary,
        UniverseOperationOp::SymmetricDifference => a_primary && b_primary,
    }
}

impl<T> Default for Universe<T> {
    /// An empty store.
    fn default() -> (u: Universe<T>)
        ensures
            u.wf(),
            u.model() == Universe::<T>::empty_model(),
            u.model().arena == Seq::<Binding<T>>::empty(),
            u.model().index == Map::<TagNameView, TagModel>::empty(),
    {
        Universe { bindings: Vec::new(), tags: Vec::new() }
    }
}

} // verus!
