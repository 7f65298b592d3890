//! How a store is laid out and how it talks to its broker.
use vstd::prelude::*;
use crate::text::same_text;

verus! {

/// The entities of a scope: one root record, and children that point to it.
#[derive(Debug)]
pub struct ScopeConfig {
    pub root_entity: String,
    pub child_entities: Vec<String>,
    /// The field of a child that holds the id of its root.
    pub scope_field: String,
}

/// An entity whose records belong to no scope.
#[derive(Debug)]
pub struct TopLevelEntity {
    pub entity: String,
    pub subscription_pattern: String,
}

/// How a store is laid out and how it talks to its broker.
#[derive(Debug)]
pub struct StoreConfig {
    pub scope: ScopeConfig,
    pub top_level_entities: Vec<TopLevelEntity>,
    /// The field of the root that holds the scope's version.
    pub version_field: String,
    /// The field of the root that holds when the scope was last changed.
    pub updated_at_field: String,
    pub sync_topic_prefix: String,
    pub response_topic_prefix: String,
    pub event_channel_capacity: usize,
    pub clean_start: bool,
    pub session_expiry_secs: u32,
}

/// Whether a text is among others.
pub fn lists_text(list: &Vec<String>, text: &str) -> (found: bool)
    ensures
        found == crate::text::texts(list@).contains(text@),
{
    let mut i: usize = 0;
    while i < list.len()
        invariant
            i <= list@.len(),
            forall|j: int| 0 <= j < i ==> (#[trigger] list@[j])@ != text@,
        decreases list@.len() - i,
    {
        if same_text(list[i].as_str(), text) {
            assert(crate::text::texts(list@)[i as int] == text@);
            return true;
        }
        i = i + 1;
    }
    proof {
        if crate::text::texts(list@).contains(text@) {
            let j = choose|j: int| 0 <= j < list@.len() && crate::text::texts(list@)[j] == text@;
            assert(list@[j]@ == text@);
        }
    }
    false
}

impl StoreConfig {
    /// The entity of scope roots.
    pub open spec fn is_root(&self, entity: Seq<char>) -> bool {
        entity == self.scope.root_entity@
    }

    /// An entity of scope children.
    pub open spec fn is_child(&self, entity: Seq<char>) -> bool {
        crate::text::texts(self.scope.child_entities@).contains(entity)
    }

    /// The names of the top-level entities.
    pub open spec fn top_level_names(&self) -> Seq<Seq<char>> {
        Seq::new(self.top_level_entities@.len(), |i: int| self.top_level_entities@[i].entity@)
    }

    /// An entity whose records belong to no scope.
    pub open spec fn is_top_level(&self, entity: Seq<char>) -> bool {
        self.top_level_names().contains(entity)
    }

    /// The records of the entity belong to a scope and name it in the scope
    /// field.
    pub open spec fn is_scoped(&self, entity: Seq<char>) -> bool {
        !self.is_root(entity) && !self.is_top_level(entity)
    }

    pub fn root(&self, entity: &str) -> (yes: bool)
        ensures
            yes == self.is_root(entity@),
    {
        same_text(entity, self.scope.root_entity.as_str())
    }

    pub fn child(&self, entity: &str) -> (yes: bool)
        ensures
            yes == self.is_child(entity@),
    {
        lists_text(&self.scope.child_entities, entity)
    }

    pub fn top_level(&self, entity: &str) -> (yes: bool)
        ensures
            yes == self.is_top_level(entity@),
    {
        let mut i: usize = 0;
        while i < self.top_level_entities.len()
            invariant
                i <= self.top_level_entities@.len(),
                forall|j: int|
                    0 <= j < i ==> (#[trigger] self.top_level_entities@[j]).entity@ != entity@,
            decreases self.top_level_entities@.len() - i,
        {
            if same_text(self.top_level_entities[i].entity.as_str(), entity) {
                assert(self.top_level_names()[i as int] == entity@);
                return true;
            }
            i = i + 1;
        }
        proof {
            if self.is_top_level(entity@) {
                let j = choose|j: int|
                    0 <= j < self.top_level_names().len() && self.top_level_names()[j] == entity@;
                assert(self.top_level_entities@[j].entity@ == entity@);
            }
        }
        false
    }

    pub fn scoped(&self, entity: &str) -> (yes: bool)
        ensures
            yes == self.is_scoped(entity@),
    {
        !self.root(entity) && !self.top_level(entity)
    }

    /// The names of `names` without those that occurred before.
    pub open spec fn distinct(names: Seq<Seq<char>>) -> Seq<Seq<char>>
        decreases names.len(),
    {
        if names.len() == 0 {
            Seq::empty()
        } else {
            let front = Self::distinct(names.drop_last());
            if front.contains(names.last()) {
                front
            } else {
                front.push(names.last())
            }
        }
    }

    /// Every entity that a scope concerns: its root, its children and the
    /// top-level entities.
    pub open spec fn scoped_entities(&self) -> Seq<Seq<char>> {
        seq![self.scope.root_entity@] + crate::text::texts(self.scope.child_entities@)
            + Self::distinct(self.top_level_names())
    }

    /// Every entity that a scope concerns: its root, its children and the
    /// top-level entities, these without repetition.
    pub fn all_scoped_entities(&self) -> (entities: Vec<String>)
        ensures
            crate::text::texts(entities@) == self.scoped_entities(),
    {
        let mut out: Vec<String> = Vec::new();
        out.push(self.scope.root_entity.clone());
        let ghost root = seq![self.scope.root_entity@];
        let ghost children = crate::text::texts(self.scope.child_entities@);
        assert(crate::text::texts(out@) =~= root + children.take(0));
        let mut i: usize = 0;
        while i < self.scope.child_entities.len()
            invariant
                i <= self.scope.child_entities@.len(),
                root == seq![self.scope.root_entity@],
                children == crate::text::texts(self.scope.child_entities@),
                crate::text::texts(out@) == root + children.take(i as int),
            decreases self.scope.child_entities@.len() - i,
        {
            let ghost before = crate::text::texts(out@);
            out.push(self.scope.child_entities[i].clone());
            assert(crate::text::texts(out@) =~= before.push(children[i as int]));
            assert(crate::text::texts(out@) =~= root + children.take(i + 1));
            i = i + 1;
        }
        assert(children.take(i as int) =~= children);
        let mut names: Vec<String> = Vec::new();
        let ghost all = self.top_level_names();
        assert(crate::text::texts(names@) =~= Self::distinct(all.take(0)));
        let mut k: usize = 0;
        while k < self.top_level_entities.len()
            invariant
                k <= self.top_level_entities@.len(),
                all == self.top_level_names(),
                crate::text::texts(names@) == Self::distinct(all.take(k as int)),
            decreases self.top_level_entities@.len() - k,
        {
            assert(all.take(k + 1).drop_last() =~= all.take(k as int));
            let name = &self.top_level_entities[k].entity;
            let ghost before = crate::text::texts(names@);
            if !lists_text(&names, name.as_str()) {
                names.push(name.clone());
                assert(crate::text::texts(names@) =~= before.push(name@));
            }
            k = k + 1;
        }
        assert(all.take(k as int) =~= all);
        let ghost front = crate::text::texts(out@);
        let ghost back = crate::text::texts(names@);
        out.append(&mut names);
        assert(crate::text::texts(out@) =~= front + back);
        assert(crate::text::texts(out@) =~= self.scoped_entities());
        out
    }
}

/// The children of a scope are the entities that its configuration lists, its root
/// is the one it names, and the top-level entities are those listed as such. Any
/// entity that is neither the root nor top-level belongs to a scope.
pub proof fn children_are_those_listed(config: &StoreConfig, entity: Seq<char>)
    ensures
        config.is_child(entity) <==> exists|i: int|
            0 <= i < config.scope.child_entities@.len() && (
            #[trigger] config.scope.child_entities@[i])@ == entity,
        config.is_top_level(entity) <==> exists|i: int|
            0 <= i < config.top_level_entities@.len() && (
            #[trigger] config.top_level_entities@[i]).entity@ == entity,
        config.is_root(entity) <==> entity == config.scope.root_entity@,
        config.is_scoped(entity) <==> entity != config.scope.root_entity@ && forall|i: int|
            0 <= i < config.top_level_entities@.len() ==> (
            #[trigger] config.top_level_entities@[i]).entity@ != entity,
{
    let children = crate::text::texts(config.scope.child_entities@);
    let tops = config.top_level_names();
    if config.is_child(entity) {
        let i = choose|i: int| 0 <= i < children.len() && children[i] == entity;
        assert(config.scope.child_entities@[i]@ == entity);
    }
    if exists|i: int|
        0 <= i < config.scope.child_entities@.len() && (
        #[trigger] config.scope.child_entities@[i])@ == entity {
        let i = choose|i: int|
            0 <= i < config.scope.child_entities@.len() && (
            #[trigger] config.scope.child_entities@[i])@ == entity;
        assert(children[i] == entity);
    }
    if config.is_top_level(entity) {
        let i = choose|i: int| 0 <= i < tops.len() && tops[i] == entity;
        assert(config.top_level_entities@[i].entity@ == entity);
    }
    if exists|i: int|
        0 <= i < config.top_level_entities@.len() && (
        #[trigger] config.top_level_entities@[i]).entity@ == entity {
        let i = choose|i: int|
            0 <= i < config.top_level_entities@.len() && (
            #[trigger] config.top_level_entities@[i]).entity@ == entity;
        assert(tops[i] == entity);
    }
}

proof fn lemma_distinct(names: Seq<Seq<char>>)
    ensures
        StoreConfig::distinct(names).no_duplicates(),
        forall|name: Seq<char>| #[trigger]
            StoreConfig::distinct(names).contains(name) <==> names.contains(name),
    decreases names.len(),
{
    let all = StoreConfig::distinct(names);
    if names.len() > 0 {
        let front = names.drop_last();
        let some = StoreConfig::distinct(front);
        lemma_distinct(front);
        assert forall|name: Seq<char>| #[trigger] all.contains(name) == names.contains(name) by {
            if all.contains(name) {
                let i = choose|i: int| 0 <= i < all.len() && all[i] == name;
                if i < some.len() {
                    assert(some[i] == name);
                    assert(some.contains(name));
                    let j = choose|j: int| 0 <= j < front.len() && front[j] == name;
                    assert(names[j] == name);
                } else {
                    assert(names[names.len() - 1] == name);
                }
            }
            if names.contains(name) {
                let i = choose|i: int| 0 <= i < names.len() && names[i] == name;
                if i < front.len() {
                    assert(front[i] == name);
                    assert(some.contains(name));
                    let j = choose|j: int| 0 <= j < some.len() && some[j] == name;
                    assert(all[j] == name);
                } else if !some.contains(name) {
                    assert(all[some.len() as int] == name);
                } else {
                    let j = choose|j: int| 0 <= j < some.len() && some[j] == name;
                    assert(all[j] == name);
                }
            }
        }
    }
}

/// The entities of a scope are its root, then its children in their order, then
/// every top-level entity, each of these once.
pub proof fn scopes_cover_all_entities(
    config: &StoreConfig,
    entities: Vec<String>,
    entity: Seq<char>,
)
    requires
        call_ensures(StoreConfig::all_scoped_entities, (config,), entities),
    ensures
        ({
            let children = config.scope.child_entities@;
            let first = 1 + children.len();
            &&& entities@.len() >= first
            &&& entities@[0]@ == config.scope.root_entity@
            &&& forall|i: int|
                0 <= i < children.len() ==> #[trigger] entities@[1 + i]@ == children[i]@
            &&& (exists|i: int|
                0 <= i < config.top_level_entities@.len() && (
                #[trigger] config.top_level_entities@[i]).entity@ == entity) <==> exists|i: int|
                first <= i < entities@.len() && (#[trigger] entities@[i])@ == entity
            &&& forall|i: int, j: int|
                first <= i < j < entities@.len() ==> (#[trigger] entities@[i])@ != (
                #[trigger] entities@[j])@
        }),
{
    let all = config.scoped_entities();
    let children = crate::text::texts(config.scope.child_entities@);
    let tops = StoreConfig::distinct(config.top_level_names());
    let first = 1 + children.len();
    lemma_distinct(config.top_level_names());
    children_are_those_listed(config, entity);
    assert(all == crate::text::texts(entities@));
    assert(all.len() == entities@.len());
    assert forall|i: int| 0 <= i < entities@.len() implies (#[trigger] entities@[i])@ == all[i] by {
        assert(crate::text::texts(entities@)[i] == entities@[i]@);
    }
    assert forall|i: int| 0 <= i < config.scope.child_entities@.len() implies #[trigger] entities@[1
        + i]@ == config.scope.child_entities@[i]@ by {
        assert(all[1 + i] == children[i]);
    }
    assert forall|i: int| first <= i < all.len() implies #[trigger] all[i] == tops[i - first] by {}
    if tops.contains(entity) {
        let k = choose|k: int| 0 <= k < tops.len() && tops[k] == entity;
        assert(all[first + k] == entity);
        assert(entities@[first + k]@ == entity);
    }
    if exists|i: int| first <= i < entities@.len() && (#[trigger] entities@[i])@ == entity {
        let i = choose|i: int| first <= i < entities@.len() && (#[trigger] entities@[i])@ == entity;
        assert(tops[i - first] == entity);
        assert(tops.contains(entity));
    }
    assert forall|i: int, j: int| first <= i < j < entities@.len() implies (
    #[trigger] entities@[i])@ != (#[trigger] entities@[j])@ by {
        assert(tops[i - first] != tops[j - first]);
    }
}

/// What an entity is: the root, a child, a top-level entity or one of a scope, by the
/// names that the configuration lists.
pub proof fn entities_are_what_is_listed(
    config: &StoreConfig,
    entity: &str,
    root: bool,
    child: bool,
    top: bool,
    scoped: bool,
    list: &Vec<String>,
    found: bool,
)
    requires
        call_ensures(StoreConfig::root, (config, entity), root),
        call_ensures(StoreConfig::child, (config, entity), child),
        call_ensures(StoreConfig::top_level, (config, entity), top),
        call_ensures(StoreConfig::scoped, (config, entity), scoped),
        call_ensures(lists_text, (list, entity), found),
    ensures
        root <==> entity@ == config.scope.root_entity@,
        child <==> exists|i: int|
            0 <= i < config.scope.child_entities@.len() && (
            #[trigger] config.scope.child_entities@[i])@ == entity@,
        top <==> exists|i: int|
            0 <= i < config.top_level_entities@.len() && (
            #[trigger] config.top_level_entities@[i]).entity@ == entity@,
        scoped <==> !root && !top,
        found <==> exists|i: int| 0 <= i < list@.len() && (#[trigger] list@[i])@ == entity@,
{
    children_are_those_listed(config, entity@);
    let names = crate::text::texts(list@);
    if found {
        let i = choose|i: int| 0 <= i < names.len() && names[i] == entity@;
        assert(list@[i]@ == entity@);
    }
    if exists|i: int| 0 <= i < list@.len() && (#[trigger] list@[i])@ == entity@ {
        let i = choose|i: int| 0 <= i < list@.len() && (#[trigger] list@[i])@ == entity@;
        assert(names[i] == entity@);
    }
}

} // verus!
