//! The semantic pass: walks the syntax tree, numbers the variables, and
//! accumulates roles, transformations, interactions and random-effect facts
//! for each of them.
//!
//! Variables are kept in registration order. The response names come first
//! and share id 1; every later variable gets the next id, so ids are
//! consecutive from 2 in order of first appearance.
use crate::ast::{Argument, CorrelationType, Grouping, RandomEffect, RandomTerm, Response, Term};
use crate::metadata::{
    FormulaMetaData, FormulaMetadataInfo, Interaction, RandomEffectInfo, Transformation,
    VariableInfo, VariableRole,
};
use crate::text::{copy_strings, decimal_string, decimal_text, same_text, texts};
use crate::transform::{
    base_name, extract_function_parameters, first_ident, generate_transformation_columns,
    generated_names, lemma_first_ident_unique, no_ident, parameters_match,
};
use vstd::prelude::*;

verus! {

/// Among `cols`, the variable called `name` has `role`.
pub open spec fn role_in(cols: Seq<(String, VariableInfo)>, name: Seq<char>, role: VariableRole) -> bool {
    exists|i: int| 0 <= i < cols.len() && cols[i].0@ == name && cols[i].1.roles@.contains(role)
}

/// The record of `name` after registering it in `old` and giving it `role`.
pub open spec fn entry_after_role(v: VariableInfo, old: MetaBuilder, name: Seq<char>, role: VariableRole) -> bool {
    &&& v.id == old.base_id(name)
    &&& v.roles@ == with_role(old.base_roles(name), role)
    &&& v.interactions@ == old.base_interactions(name)
    &&& v.transformations@ == old.base_transformations(name)
    &&& v.random_effects@ == old.base_random_effects(name)
    &&& texts(v.generated_columns@) == old.base_columns(name)
}

/// Two records that differ at most in their roles.
pub open spec fn same_but_roles(a: VariableInfo, b: VariableInfo) -> bool {
    &&& a.id == b.id
    &&& a.transformations == b.transformations
    &&& a.interactions == b.interactions
    &&& a.random_effects == b.random_effects
    &&& a.generated_columns == b.generated_columns
}

/// `roles` after adding `role` as to a set.
pub open spec fn with_role(roles: Seq<VariableRole>, role: VariableRole) -> Seq<VariableRole> {
    if roles.contains(role) {
        roles
    } else {
        roles.push(role)
    }
}

/// The generated columns of a variable once a transformation that generates
/// `generated` is applied: a variable used plainly keeps its own column first.
pub open spec fn columns_after_transform(
    name: Seq<char>,
    roles: Seq<VariableRole>,
    generated: Seq<Seq<char>>,
) -> Seq<Seq<char>> {
    if roles.contains(VariableRole::Identity) {
        seq![name] + generated
    } else {
        generated
    }
}

/// The registry of the semantic pass.
pub struct MetaBuilder {
    /// Variables by name, in registration order.
    pub columns: Vec<(String, VariableInfo)>,
    /// How many leading entries are response variables.
    pub n_responses: usize,
    pub has_uncorrelated_slopes_and_intercepts: bool,
    pub is_random_effects_model: bool,
    pub next_id: u32,
}

impl MetaBuilder {
    pub open spec fn name_at(&self, i: int) -> Seq<char> {
        self.columns@[i].0@
    }

    pub open spec fn info_at(&self, i: int) -> VariableInfo {
        self.columns@[i].1
    }

    /// Whether a variable called `name` is registered.
    pub open spec fn has(&self, name: Seq<char>) -> bool {
        exists|i: int| 0 <= i < self.columns@.len() && self.name_at(i) == name
    }

    /// The position of the variable called `name`, when it is registered.
    pub open spec fn index_of(&self, name: Seq<char>) -> int {
        choose|i: int| 0 <= i < self.columns@.len() && self.name_at(i) == name
    }

    /// The id `name` has, or the one it would get when registered.
    pub open spec fn base_id(&self, name: Seq<char>) -> u32 {
        if self.has(name) {
            self.info_at(self.index_of(name)).id
        } else {
            self.next_id
        }
    }

    /// The roles `name` has; none if it is not registered.
    pub open spec fn base_roles(&self, name: Seq<char>) -> Seq<VariableRole> {
        if self.has(name) {
            self.info_at(self.index_of(name)).roles@
        } else {
            Seq::empty()
        }
    }

    /// The interactions recorded on `name`; none if it is not registered.
    pub open spec fn base_interactions(&self, name: Seq<char>) -> Seq<Interaction> {
        if self.has(name) {
            self.info_at(self.index_of(name)).interactions@
        } else {
            Seq::empty()
        }
    }

    /// The transformations of `name`; none if it is not registered.
    pub open spec fn base_transformations(&self, name: Seq<char>) -> Seq<Transformation> {
        if self.has(name) {
            self.info_at(self.index_of(name)).transformations@
        } else {
            Seq::empty()
        }
    }

    /// The random-effect records of `name`; none if it is not registered.
    pub open spec fn base_random_effects(&self, name: Seq<char>) -> Seq<RandomEffectInfo> {
        if self.has(name) {
            self.info_at(self.index_of(name)).random_effects@
        } else {
            Seq::empty()
        }
    }

    /// The generated columns of `name`; its own name if it is not registered.
    pub open spec fn base_columns(&self, name: Seq<char>) -> Seq<Seq<char>> {
        if self.has(name) {
            texts(self.info_at(self.index_of(name)).generated_columns@)
        } else {
            seq![name]
        }
    }

    /// Names are unique; the first `n_responses` entries have id 1 and the
    /// role `Response`; the others are numbered 2, 3, ... in order; `next_id`
    /// is the id the next variable gets; no role occurs twice on a variable.
    pub open spec fn wf(&self) -> bool {
        &&& self.n_responses <= self.columns@.len()
        &&& self.columns@.len() + 2 <= u32::MAX
        &&& self.next_id as int == self.columns@.len() - self.n_responses + 2
        &&& forall|i: int, j: int|
            0 <= i < j < self.columns@.len() ==> self.name_at(i) != self.name_at(j)
        &&& forall|i: int|
            0 <= i < self.n_responses ==> (#[trigger] self.info_at(i)).id == 1
                && self.info_at(i).roles@.contains(VariableRole::Response)
        &&& forall|i: int|
            self.n_responses <= i < self.columns@.len() ==> (#[trigger] self.info_at(i)).id as int
                == i - self.n_responses + 2
        &&& forall|i: int|
            0 <= i < self.columns@.len() ==> (#[trigger] self.info_at(i)).roles@.no_duplicates()
    }

    /// Room to register `k` more variables with ids that fit in `u32`.
    pub open spec fn room(&self, k: int) -> bool {
        self.columns@.len() + k + 2 <= u32::MAX
    }

    /// The model-wide fields are those of `other`.
    pub open spec fn same_flags(&self, other: &MetaBuilder) -> bool {
        &&& self.n_responses == other.n_responses
        &&& self.has_uncorrelated_slopes_and_intercepts
            == other.has_uncorrelated_slopes_and_intercepts
        &&& self.is_random_effects_model == other.is_random_effects_model
        &&& self.next_id == other.next_id
    }

    /// Every role a variable of `old` had, it still has here.
    pub open spec fn roles_kept(&self, old: &MetaBuilder) -> bool {
        forall|i: int, r: VariableRole|
            0 <= i < old.columns@.len() && #[trigger] old.info_at(i).roles@.contains(r)
                ==> #[trigger] self.info_at(i).roles@.contains(r)
    }

    /// Every random-effect record a variable of `old` had, it still has at
    /// the same place.
    pub open spec fn records_kept(&self, old: &MetaBuilder) -> bool {
        &&& forall|i: int|
            0 <= i < old.columns@.len() ==> old.info_at(i).random_effects@.len() <= (
            #[trigger] self.info_at(i)).random_effects@.len()
        &&& forall|i: int, k: int|
            0 <= i < old.columns@.len() && 0 <= k < old.info_at(i).random_effects@.len()
                ==> #[trigger] self.info_at(i).random_effects@[k] == old.info_at(
                i,
            ).random_effects@[k]
    }

    /// An empty registry.
    pub fn new() -> (r: MetaBuilder)
        ensures
            r.wf(),
            r.columns@.len() == 0,
            r.n_responses == 0,
            !r.has_uncorrelated_slopes_and_intercepts,
            !r.is_random_effects_model,
    {
        MetaBuilder {
            columns: Vec::new(),
            n_responses: 0,
            has_uncorrelated_slopes_and_intercepts: false,
            is_random_effects_model: false,
            next_id: 2,
        }
    }

    /// The position of the variable called `name`.
    pub fn find(&self, name: &str) -> (r: Option<usize>)
        ensures
            match r {
                Some(i) => i < self.columns@.len() && self.name_at(i as int) == name@,
                None => !self.has(name@),
            },
    {
        let mut i: usize = 0;
        while i < self.columns.len()
            invariant
                i <= self.columns@.len(),
                forall|j: int| 0 <= j < i ==> self.name_at(j) != name@,
            decreases self.columns@.len() - i,
        {
            if same_text(self.columns[i].0.as_str(), name) {
                return Some(i);
            }
            i = i + 1;
        }
        None
    }

    /// The id of `name`, registering it first with the next id, no roles and
    /// its own name as its one generated column if it is new.
    pub fn ensure_variable(&mut self, name: &str) -> (id: u32)
        requires
            old(self).wf(),
            old(self).room(1),
        ensures
            final(self).wf(),
            final(self).roles_kept(old(self)),
            final(self).n_responses == old(self).n_responses,
            final(self).has_uncorrelated_slopes_and_intercepts
                == old(self).has_uncorrelated_slopes_and_intercepts,
            final(self).is_random_effects_model == old(self).is_random_effects_model,
            final(self).has(name@),
            old(self).has(name@) ==> final(self).columns@ == old(self).columns@ && exists|i: int|
                0 <= i < old(self).columns@.len() && old(self).name_at(i) == name@ && id
                    == old(self).info_at(i).id,
            !old(self).has(name@) ==> {
                &&& final(self).columns@.len() == old(self).columns@.len() + 1
                &&& final(self).columns@.subrange(0, old(self).columns@.len() as int)
                    == old(self).columns@
                &&& final(self).name_at(old(self).columns@.len() as int) == name@
                &&& id == old(self).next_id
                &&& final(self).info_at(old(self).columns@.len() as int).id == id
                &&& final(self).info_at(old(self).columns@.len() as int).roles@.len() == 0
                &&& final(self).info_at(old(self).columns@.len() as int).transformations@.len()
                    == 0
                &&& final(self).info_at(old(self).columns@.len() as int).interactions@.len() == 0
                &&& final(self).info_at(old(self).columns@.len() as int).random_effects@.len()
                    == 0
                &&& texts(
                    final(self).info_at(old(self).columns@.len() as int).generated_columns@,
                ) == seq![name@]
            },
    {
        match self.find(name) {
            Some(i) => self.columns[i].1.id,
            None => {
                let id = self.next_id;
                let mut generated: Vec<String> = Vec::new();
                generated.push(name.to_string());
                let info = VariableInfo {
                    id,
                    roles: Vec::new(),
                    transformations: Vec::new(),
                    interactions: Vec::new(),
                    random_effects: Vec::new(),
                    generated_columns: generated,
                };
                let ghost before = self.columns@;
                let ghost pre = *self;
                self.columns.push((name.to_string(), info));
                self.next_id = self.next_id + 1;
                proof {
                    assert(self.columns@.subrange(0, before.len() as int) =~= before);
                    assert(texts(self.info_at(before.len() as int).generated_columns@) =~= seq![
                        name@,
                    ]);
                    assert(self.name_at(before.len() as int) == name@);
                    assert forall|i: int, j: int|
                        0 <= i < j < self.columns@.len() implies self.name_at(i) != self.name_at(
                        j,
                    ) by {
                        assert(self.columns@[i] == before[i]);
                        assert(pre.name_at(i) == self.name_at(i));
                        if j < before.len() {
                            assert(self.columns@[j] == before[j]);
                            assert(pre.name_at(j) == self.name_at(j));
                        } else if pre.name_at(i) == name@ {
                            assert(pre.has(name@));
                        }
                    }
                    assert forall|i: int|
                        0 <= i < self.columns@.len() implies (
                        #[trigger] self.info_at(i)).roles@.no_duplicates() by {
                        if i < before.len() {
                            assert(self.columns@[i] == before[i]);
                            assert(pre.info_at(i) == self.info_at(i));
                        } else {
                            assert(self.info_at(i).roles@ =~= Seq::<VariableRole>::empty());
                        }
                    }
                    assert forall|i: int|
                        self.n_responses <= i < self.columns@.len() implies (
                        #[trigger] self.info_at(i)).id as int == i - self.n_responses + 2 by {
                        if i < before.len() {
                            assert(self.columns@[i] == before[i]);
                            assert(pre.info_at(i) == self.info_at(i));
                        }
                    }
                    assert forall|i: int| 0 <= i < self.n_responses implies (
                    #[trigger] self.info_at(i)).id == 1 && self.info_at(i).roles@.contains(
                        VariableRole::Response,
                    ) by {
                        assert(self.columns@[i] == before[i]);
                        assert(pre.info_at(i) == self.info_at(i));
                    }
                }
                id
            },
        }
    }

    /// Adds `role` to the roles of `name`, as to a set; nothing if `name` is
    /// not registered.
    pub fn add_role(&mut self, name: &str, role: VariableRole)
        requires
            old(self).wf(),
        ensures
            final(self).wf(),
            final(self).roles_kept(old(self)),
            final(self).same_flags(old(self)),
            final(self).columns@.len() == old(self).columns@.len(),
            forall|i: int|
                0 <= i < old(self).columns@.len() ==> final(self).name_at(i) == old(self).name_at(i),
            forall|i: int|
                0 <= i < old(self).columns@.len() && old(self).name_at(i) != name@ ==> final(self).columns@[i] == old(self).columns@[i],
            forall|i: int|
                0 <= i < old(self).columns@.len() && old(self).name_at(i) == name@ ==> {
                    &&& final(self).info_at(i).roles@ == with_role(
                        old(self).info_at(i).roles@,
                        role,
                    )
                    &&& same_but_roles(final(self).info_at(i), old(self).info_at(i))
                },
    {
        if let Some(i) = self.find(name) {
            if !has_role(&self.columns[i].1.roles, role) {
                let ghost pre = *self;
                let mut entry = (String::new(), VariableInfo::empty());
                self.columns.set_and_swap(i, &mut entry);
                entry.1.roles.push(role);
                self.columns.set_and_swap(i, &mut entry);
                proof {
                    let old_roles = pre.info_at(i as int).roles@;
                    let new_roles = self.info_at(i as int).roles@;
                    assert(new_roles == old_roles.push(role));
                    assert(old_roles.no_duplicates());
                    assert forall|p: int, q: int|
                        0 <= p < new_roles.len() && 0 <= q < new_roles.len() && p != q implies new_roles[p]
                        != new_roles[q] by {
                        if q == old_roles.len() && old_roles[p] == role {
                            assert(old_roles.contains(role));
                        }
                        if p == old_roles.len() && old_roles[q] == role {
                            assert(old_roles.contains(role));
                        }
                    }
                    if old_roles.contains(VariableRole::Response) {
                        let w = choose|w: int| 0 <= w < old_roles.len() && old_roles[w] == VariableRole::Response;
                        assert(new_roles[w] == VariableRole::Response);
                    }
                    lemma_update_keeps_wf(pre, *self, i as int);
                    lemma_single_name(pre, i as int);
                    assert forall|q: int, r: VariableRole|
                        0 <= q < pre.columns@.len() && #[trigger] pre.info_at(q).roles@.contains(r)
                            implies #[trigger] self.info_at(q).roles@.contains(r) by {
                        if q == i {
                            let w = choose|w: int| 0 <= w < old_roles.len() && old_roles[w] == r;
                            assert(new_roles[w] == r);
                        }
                    }
                }
            } else {
                proof {
                    lemma_single_name(*self, i as int);
                }
            }
        }
    }

    /// Appends `transformation` to `name`'s record and sets its generated
    /// columns to those of the transformation, kept behind the variable's own
    /// name when the variable is also used plainly (`Identity`).
    pub fn add_transformation(&mut self, name: &str, transformation: Transformation)
        requires
            old(self).wf(),
        ensures
            final(self).wf(),
            final(self).records_kept(old(self)),
            final(self).roles_kept(old(self)),
            final(self).same_flags(old(self)),
            final(self).columns@.len() == old(self).columns@.len(),
            forall|i: int|
                0 <= i < old(self).columns@.len() ==> final(self).name_at(i) == old(self).name_at(i),
            forall|i: int|
                0 <= i < old(self).columns@.len() && old(self).name_at(i) != name@ ==> final(self).columns@[i] == old(self).columns@[i],
            forall|i: int|
                0 <= i < old(self).columns@.len() && old(self).name_at(i) == name@ ==> {
                    let a = final(self).info_at(i);
                    let b = old(self).info_at(i);
                    &&& a.transformations@ == b.transformations@.push(transformation)
                    &&& texts(a.generated_columns@) == columns_after_transform(
                        name@,
                        b.roles@,
                        texts(transformation.generates_columns@),
                    )
                    &&& a.id == b.id
                    &&& a.roles == b.roles
                    &&& a.interactions == b.interactions
                    &&& a.random_effects == b.random_effects
                },
    {
        if let Some(i) = self.find(name) {
            let ghost pre = *self;
            let generated = copy_strings(&transformation.generates_columns);
            let mut entry = (String::new(), VariableInfo::empty());
            self.columns.set_and_swap(i, &mut entry);
            let mut columns: Vec<String> = Vec::new();
            if has_role(&entry.1.roles, VariableRole::Identity) {
                columns.push(name.to_string());
            }
            let mut k: usize = 0;
            let ghost base = columns@;
            while k < generated.len()
                invariant
                    k <= generated@.len(),
                    texts(columns@) == texts(base) + texts(generated@.subrange(0, k as int)),
                decreases generated@.len() - k,
            {
                let c = generated[k].clone();
                let ghost prev = columns@;
                columns.push(c);
                k = k + 1;
                proof {
                    assert(texts(columns@) =~= texts(prev) + seq![c@]);
                    assert(texts(generated@.subrange(0, k as int)) =~= texts(
                        generated@.subrange(0, k - 1),
                    ) + seq![c@]);
                }
            }
            entry.1.transformations.push(transformation);
            entry.1.generated_columns = columns;
            self.columns.set_and_swap(i, &mut entry);
            proof {
                assert(generated@.subrange(0, generated@.len() as int) =~= generated@);
                if pre.info_at(i as int).roles@.contains(VariableRole::Identity) {
                    assert(texts(base) =~= seq![name@]);
                } else {
                    assert(texts(base) =~= Seq::<Seq<char>>::empty());
                }
                assert(texts(self.info_at(i as int).generated_columns@) =~= columns_after_transform(
                    name@,
                    pre.info_at(i as int).roles@,
                    texts(transformation.generates_columns@),
                ));
                lemma_update_keeps_wf(pre, *self, i as int);
                lemma_single_name(pre, i as int);
            }
        }
    }

    /// Appends `interaction` to `name`'s record.
    pub fn add_interaction(&mut self, name: &str, interaction: Interaction)
        requires
            old(self).wf(),
        ensures
            final(self).wf(),
            final(self).records_kept(old(self)),
            final(self).roles_kept(old(self)),
            final(self).same_flags(old(self)),
            final(self).columns@.len() == old(self).columns@.len(),
            forall|i: int|
                0 <= i < old(self).columns@.len() ==> final(self).name_at(i) == old(self).name_at(i),
            forall|i: int|
                0 <= i < old(self).columns@.len() && old(self).name_at(i) != name@ ==> final(self).columns@[i] == old(self).columns@[i],
            forall|i: int|
                0 <= i < old(self).columns@.len() && old(self).name_at(i) == name@ ==> {
                    let a = final(self).info_at(i);
                    let b = old(self).info_at(i);
                    &&& a.interactions@ == b.interactions@.push(interaction)
                    &&& a.id == b.id
                    &&& a.roles == b.roles
                    &&& a.transformations == b.transformations
                    &&& a.random_effects == b.random_effects
                    &&& a.generated_columns == b.generated_columns
                },
    {
        if let Some(i) = self.find(name) {
            let ghost pre = *self;
            let mut entry = (String::new(), VariableInfo::empty());
            self.columns.set_and_swap(i, &mut entry);
            entry.1.interactions.push(interaction);
            self.columns.set_and_swap(i, &mut entry);
            proof {
                assert(pre.info_at(i as int).roles@.no_duplicates());
                lemma_update_keeps_wf(pre, *self, i as int);
                lemma_single_name(pre, i as int);
            }
        }
    }

    /// Appends `random_effect` to `name`'s record.
    pub fn add_random_effect(&mut self, name: &str, random_effect: RandomEffectInfo)
        requires
            old(self).wf(),
        ensures
            final(self).wf(),
            final(self).records_kept(old(self)),
            final(self).roles_kept(old(self)),
            final(self).same_flags(old(self)),
            final(self).columns@.len() == old(self).columns@.len(),
            forall|i: int|
                0 <= i < old(self).columns@.len() ==> final(self).name_at(i) == old(self).name_at(i),
            forall|i: int|
                0 <= i < old(self).columns@.len() && old(self).name_at(i) != name@ ==> final(self).columns@[i] == old(self).columns@[i],
            forall|i: int|
                0 <= i < old(self).columns@.len() && old(self).name_at(i) == name@ ==> {
                    let a = final(self).info_at(i);
                    let b = old(self).info_at(i);
                    &&& a.random_effects@ == b.random_effects@.push(random_effect)
                    &&& a.id == b.id
                    &&& a.roles == b.roles
                    &&& a.transformations == b.transformations
                    &&& a.interactions == b.interactions
                    &&& a.generated_columns == b.generated_columns
                },
    {
        if let Some(i) = self.find(name) {
            let ghost pre = *self;
            let mut entry = (String::new(), VariableInfo::empty());
            self.columns.set_and_swap(i, &mut entry);
            entry.1.random_effects.push(random_effect);
            self.columns.set_and_swap(i, &mut entry);
            proof {
                assert(pre.info_at(i as int).roles@.no_duplicates());
                lemma_update_keeps_wf(pre, *self, i as int);
                lemma_single_name(pre, i as int);
            }
        }
    }
}

impl VariableInfo {
    /// A record with id 0 and nothing in it.
    pub fn empty() -> (r: VariableInfo)
        ensures
            r.id == 0,
            r.roles@.len() == 0,
            r.transformations@.len() == 0,
            r.interactions@.len() == 0,
            r.random_effects@.len() == 0,
            r.generated_columns@.len() == 0,
    {
        VariableInfo {
            id: 0,
            roles: Vec::new(),
            transformations: Vec::new(),
            interactions: Vec::new(),
            random_effects: Vec::new(),
            generated_columns: Vec::new(),
        }
    }
}

/// Whether `roles` holds `role`.
pub fn has_role(roles: &Vec<VariableRole>, role: VariableRole) -> (r: bool)
    ensures
        r == roles@.contains(role),
{
    let mut i: usize = 0;
    while i < roles.len()
        invariant
            i <= roles@.len(),
            forall|j: int| 0 <= j < i ==> roles@[j] != role,
        decreases roles@.len() - i,
    {
        if roles[i] == role {
            return true;
        }
        i = i + 1;
    }
    false
}

/// Changing one entry, keeping its name and id, with roles that still hold
/// `Response` where they did and still have no duplicates, keeps the
/// registry well formed.
proof fn lemma_update_keeps_wf(a: MetaBuilder, b: MetaBuilder, i: int)
    requires
        a.wf(),
        b.same_flags(&a),
        0 <= i < a.columns@.len(),
        b.columns@.len() == a.columns@.len(),
        forall|j: int| 0 <= j < a.columns@.len() && j != i ==> b.columns@[j] == a.columns@[j],
        b.name_at(i) == a.name_at(i),
        b.info_at(i).id == a.info_at(i).id,
        b.info_at(i).roles@.no_duplicates(),
        a.info_at(i).roles@.contains(VariableRole::Response) ==> b.info_at(
            i,
        ).roles@.contains(VariableRole::Response),
    ensures
        b.wf(),
{
    assert forall|p: int, q: int| 0 <= p < q < b.columns@.len() implies b.name_at(p) != b.name_at(
        q,
    ) by {
        assert(b.name_at(p) == a.name_at(p));
        assert(b.name_at(q) == a.name_at(q));
    }
    assert forall|p: int| 0 <= p < b.columns@.len() implies (
    #[trigger] b.info_at(p)).roles@.no_duplicates() by {
        if p != i {
            assert(b.info_at(p) == a.info_at(p));
        }
    }
    assert forall|p: int| 0 <= p < b.n_responses implies (#[trigger] b.info_at(p)).id == 1
        && b.info_at(p).roles@.contains(VariableRole::Response) by {
        if p != i {
            assert(b.info_at(p) == a.info_at(p));
        } else {
            assert(a.info_at(p).id == 1);
        }
    }
    assert forall|p: int| b.n_responses <= p < b.columns@.len() implies (
    #[trigger] b.info_at(p)).id as int == p - b.n_responses + 2 by {
        if p != i {
            assert(b.info_at(p) == a.info_at(p));
        } else {
            assert(a.info_at(p).id as int == p - a.n_responses + 2);
        }
    }
}

/// Keeping roles is transitive.
proof fn lemma_roles_kept_trans(a: MetaBuilder, b: MetaBuilder, c: MetaBuilder)
    requires
        b.roles_kept(&a),
        c.roles_kept(&b),
        a.columns@.len() <= b.columns@.len(),
    ensures
        c.roles_kept(&a),
{
    assert forall|i: int, r: VariableRole|
        0 <= i < a.columns@.len() && #[trigger] a.info_at(i).roles@.contains(r) implies #[trigger] c.info_at(
            i,
        ).roles@.contains(r) by {
        assert(b.info_at(i).roles@.contains(r));
    }
}

/// Model-wide flags play no part in well-formedness.
proof fn lemma_flags_keep_wf(a: MetaBuilder, b: MetaBuilder)
    requires
        a.wf(),
        a.columns == b.columns,
        a.n_responses == b.n_responses,
        a.next_id == b.next_id,
    ensures
        b.wf(),
{
    assert forall|p: int, q: int| 0 <= p < q < b.columns@.len() implies b.name_at(p) != b.name_at(
        q,
    ) by {
        assert(a.name_at(p) != a.name_at(q));
    }
    assert forall|p: int| 0 <= p < b.columns@.len() implies (
    #[trigger] b.info_at(p)).roles@.no_duplicates() by {
        assert(a.info_at(p) == b.info_at(p));
    }
    assert forall|p: int| 0 <= p < b.n_responses implies (#[trigger] b.info_at(p)).id == 1
        && b.info_at(p).roles@.contains(VariableRole::Response) by {
        assert(a.info_at(p) == b.info_at(p));
    }
    assert forall|p: int| b.n_responses <= p < b.columns@.len() implies (
    #[trigger] b.info_at(p)).id as int == p - b.n_responses + 2 by {
        assert(a.info_at(p) == b.info_at(p));
    }
}

/// In a well-formed registry only entry `i` has entry `i`'s name.
proof fn lemma_single_name(a: MetaBuilder, i: int)
    requires
        a.wf(),
        0 <= i < a.columns@.len(),
    ensures
        forall|j: int| 0 <= j < a.columns@.len() && j != i ==> a.name_at(j) != a.name_at(i),
{
    assert forall|j: int| 0 <= j < a.columns@.len() && j != i implies a.name_at(j) != a.name_at(
        i,
    ) by {
        if j < i {
            assert(a.name_at(j) != a.name_at(i));
        } else {
            assert(a.name_at(i) != a.name_at(j));
        }
    }
}


/// The names a response declares.
pub open spec fn response_names(r: Response) -> Seq<Seq<char>> {
    match r {
        Response::Single(n) => seq![n@],
        Response::Multivariate(v) => texts(v@),
    }
}

/// The variable that stands for a term in an interaction: a column's name,
/// a function's first identifier argument, an interaction's left side.
pub open spec fn variable_of(t: Term) -> Option<Seq<char>>
    decreases t,
{
    match t {
        Term::Column(n) => Some(n@),
        Term::Function { name, args } => if no_ident(args@) {
            None
        } else {
            Some(base_name(args@))
        },
        Term::Interaction { left, right } => variable_of(*left),
        _ => None,
    }
}

impl MetaBuilder {
    /// `self` keeps the entries of `old` at their positions with their names,
    /// with at most `k` appended, and the same response count.
    pub open spec fn extends(&self, old: &MetaBuilder, k: int) -> bool {
        &&& old.columns@.len() <= self.columns@.len() <= old.columns@.len() + k
        &&& forall|i: int| 0 <= i < old.columns@.len() ==> self.name_at(i) == old.name_at(i)
        &&& self.n_responses == old.n_responses
    }

    /// Entries of `old` whose names are not in `names` are unchanged.
    pub open spec fn untouched_except(&self, old: &MetaBuilder, names: Set<Seq<char>>) -> bool {
        forall|i: int|
            0 <= i < old.columns@.len() && !names.contains(old.name_at(i)) ==> self.columns@[i]
                == old.columns@[i]
    }

    /// The registered variable `name` has `role`.
    pub open spec fn has_role_on(&self, name: Seq<char>, role: VariableRole) -> bool {
        role_in(self.columns@, name, role)
    }

    /// Registers a response name with id 1 and the role `Response`; a name
    /// already registered is left as it is.
    fn register_response(&mut self, name: &str)
        requires
            old(self).wf(),
            old(self).columns@.len() == old(self).n_responses,
            old(self).room(1),
        ensures
            final(self).wf(),
            forall|i: int|
                old(self).columns@.len() <= i < final(self).columns@.len() ==> texts(
                    (#[trigger] final(self).info_at(i)).generated_columns@,
                ) == seq![final(self).name_at(i)],
            final(self).columns@.len() == final(self).n_responses,
            final(self).has(name@),
            final(self).extends(old(self), 1) || (final(self).columns@.len()
                == old(self).columns@.len() + 1 && forall|i: int|
                0 <= i < old(self).columns@.len() ==> final(self).name_at(i) == old(self).name_at(
                    i,
                )),
            final(self).columns@.len() <= old(self).columns@.len() + 1,
            forall|i: int|
                0 <= i < old(self).columns@.len() ==> final(self).columns@[i] == old(
                    self,
                ).columns@[i],
            forall|i: int|
                old(self).columns@.len() <= i < final(self).columns@.len() ==> final(self).name_at(i)
                    == name@,
            final(self).has_uncorrelated_slopes_and_intercepts
                == old(self).has_uncorrelated_slopes_and_intercepts,
            final(self).is_random_effects_model == old(self).is_random_effects_model,
    {
        if self.find(name).is_some() {
            return;
        }
        let ghost pre = *self;
        let mut roles: Vec<VariableRole> = Vec::new();
        roles.push(VariableRole::Response);
        let mut generated: Vec<String> = Vec::new();
        generated.push(name.to_string());
        let info = VariableInfo {
            id: 1,
            roles,
            transformations: Vec::new(),
            interactions: Vec::new(),
            random_effects: Vec::new(),
            generated_columns: generated,
        };
        self.columns.push((name.to_string(), info));
        self.n_responses = self.n_responses + 1;
        proof {
            let n = pre.columns@.len();
            assert(self.name_at(n as int) == name@);
            assert(self.info_at(n as int).roles@ =~= seq![VariableRole::Response]);
            assert(self.info_at(n as int).roles@[0] == VariableRole::Response);
            assert(texts(self.info_at(n as int).generated_columns@) =~= seq![name@]);
            assert forall|i: int| 0 <= i < n implies self.columns@[i] == pre.columns@[i] by {}
            assert forall|i: int, j: int|
                0 <= i < j < self.columns@.len() implies self.name_at(i) != self.name_at(j) by {
                assert(pre.name_at(i) == self.name_at(i));
                if j < n {
                    assert(pre.name_at(j) == self.name_at(j));
                } else if pre.name_at(i) == name@ {
                    assert(pre.has(name@));
                }
            }
            assert forall|i: int|
                0 <= i < self.columns@.len() implies (
                #[trigger] self.info_at(i)).roles@.no_duplicates() by {
                if i < n {
                    assert(pre.info_at(i) == self.info_at(i));
                }
            }
            assert forall|i: int|
                0 <= i < self.n_responses implies (#[trigger] self.info_at(i)).id == 1
                && self.info_at(i).roles@.contains(VariableRole::Response) by {
                if i < n {
                    assert(pre.info_at(i) == self.info_at(i));
                }
            }
        }
    }

    /// Registers the response: every name it declares gets id 1 and the
    /// role `Response`. Responses are registered before anything else.
    pub fn push_response(&mut self, response: &Response)
        requires
            old(self).wf(),
            old(self).columns@.len() == old(self).n_responses,
            old(self).room(response_names(*response).len() as int),
        ensures
            final(self).wf(),
            forall|i: int|
                old(self).columns@.len() <= i < final(self).columns@.len() ==> texts(
                    (#[trigger] final(self).info_at(i)).generated_columns@,
                ) == seq![final(self).name_at(i)],
            final(self).columns@.len() == final(self).n_responses,
            forall|k: int|
                0 <= k < response_names(*response).len() ==> final(self).has(
                    #[trigger] response_names(*response)[k],
                ),
            forall|i: int|
                old(self).columns@.len() <= i < final(self).columns@.len() ==> response_names(
                    *response,
                ).contains(#[trigger] final(self).name_at(i)),
            forall|i: int|
                0 <= i < old(self).columns@.len() ==> final(self).columns@[i] == old(
                    self,
                ).columns@[i],
            final(self).columns@.len() <= old(self).columns@.len() + response_names(
                *response,
            ).len(),
            final(self).has_uncorrelated_slopes_and_intercepts
                == old(self).has_uncorrelated_slopes_and_intercepts,
            final(self).is_random_effects_model == old(self).is_random_effects_model,
    {
        match response {
            Response::Single(name) => {
                let ghost pre = *self;
                self.register_response(name.as_str());
                proof {
                    assert(response_names(*response)[0] == name@);
                    assert forall|i: int|
                        pre.columns@.len() <= i < self.columns@.len() implies response_names(
                            *response,
                        ).contains(#[trigger] self.name_at(i)) by {
                        assert(self.name_at(i) == response_names(*response)[0]);
                    }
                }
            },
            Response::Multivariate(names) => {
                let ghost pre = *self;
                let ghost all = response_names(*response);
                let mut k: usize = 0;
                while k < names.len()
                    invariant
                        all == texts(names@),
                        k <= names@.len(),
                        self.wf(),
                        self.columns@.len() == self.n_responses,
                        pre.columns@.len() <= self.columns@.len() <= pre.columns@.len() + k,
                        pre.room(names@.len() as int),
                        forall|j: int| 0 <= j < k ==> self.has(#[trigger] all[j]),
                        forall|i: int|
                            pre.columns@.len() <= i < self.columns@.len() ==> exists|j: int|
                                0 <= j < k && (#[trigger] self.name_at(i)) == (#[trigger] all[j]),
                        forall|i: int|
                            0 <= i < pre.columns@.len() ==> self.columns@[i] == pre.columns@[i],
                        forall|i: int|
                            pre.columns@.len() <= i < self.columns@.len() ==> texts(
                                (#[trigger] self.info_at(i)).generated_columns@,
                            ) == seq![self.name_at(i)],
                        self.has_uncorrelated_slopes_and_intercepts
                            == pre.has_uncorrelated_slopes_and_intercepts,
                        self.is_random_effects_model == pre.is_random_effects_model,
                    decreases names@.len() - k,
                {
                    let ghost before = *self;
                    self.register_response(names[k].as_str());
                    proof {
                        assert forall|i: int|
                            pre.columns@.len() <= i < self.columns@.len() implies texts(
                                (#[trigger] self.info_at(i)).generated_columns@,
                            ) == seq![self.name_at(i)] by {
                            if i < before.columns@.len() {
                                assert(self.columns@[i] == before.columns@[i]);
                                assert(before.info_at(i) == self.info_at(i));
                            }
                        }
                        assert(all[k as int] == names@[k as int]@);
                        assert forall|j: int| 0 <= j < k + 1 implies self.has(#[trigger] all[j]) by {
                            if j < k {
                                assert(before.has(all[j]));
                                let w = choose|w: int|
                                    0 <= w < before.columns@.len() && before.name_at(w) == all[j];
                                assert(self.columns@[w] == before.columns@[w]);
                                assert(self.name_at(w) == all[j]);
                            }
                        }
                        assert forall|i: int|
                            pre.columns@.len() <= i < self.columns@.len() implies exists|j: int|
                                0 <= j < k + 1 && (#[trigger] self.name_at(i)) == (#[trigger] all[j]) by {
                            if i < before.columns@.len() {
                                assert(self.columns@[i] == before.columns@[i]);
                                let j = choose|j: int| 0 <= j < k && before.name_at(i) == all[j];
                                assert(self.name_at(i) == all[j]);
                            } else {
                                assert(self.name_at(i) == all[k as int]);
                            }
                        }
                    }
                    k = k + 1;
                }
                proof {
                    assert forall|i: int|
                        pre.columns@.len() <= i < self.columns@.len() implies all.contains(
                            #[trigger] self.name_at(i),
                        ) by {
                        let j = choose|j: int|
                            0 <= j < names@.len() && (#[trigger] self.name_at(i)) == (
                            #[trigger] all[j]);
                        assert(all[j] == self.name_at(i));
                    }
                }
            },
        }
    }
}


impl MetaBuilder {
    /// Registers `name` if new and gives it `role`.
    fn ensure_with_role(&mut self, name: &str, role: VariableRole)
        requires
            old(self).wf(),
            old(self).room(1),
        ensures
            final(self).wf(),
            final(self).records_kept(old(self)),
            final(self).roles_kept(old(self)),
            old(self).has(name@) ==> final(self).columns@.len() == old(self).columns@.len(),
            !old(self).has(name@) ==> final(self).columns@.len() == old(self).columns@.len() + 1
                && final(self).name_at(old(self).columns@.len() as int) == name@ && texts(
                final(self).info_at(old(self).columns@.len() as int).generated_columns@,
            ) == seq![name@],
            final(self).extends(old(self), 1),
            final(self).untouched_except(old(self), set![name@]),
            final(self).has_role_on(name@, role),
            final(self).has_uncorrelated_slopes_and_intercepts
                == old(self).has_uncorrelated_slopes_and_intercepts,
            final(self).is_random_effects_model == old(self).is_random_effects_model,
            forall|i: int|
                0 <= i < final(self).columns@.len() && final(self).name_at(i) == name@ ==> (
                #[trigger] final(self).info_at(i)).roles@ == with_role(
                    if i < old(self).columns@.len() {
                        old(self).info_at(i).roles@
                    } else {
                        Seq::empty()
                    },
                    role,
                ),
            forall|i: int|
                0 <= i < final(self).columns@.len() && final(self).name_at(i) == name@
                    ==> entry_after_role(#[trigger] final(self).info_at(i), *old(self), name@, role),
    {
        let ghost pre = *self;
        self.ensure_variable(name);
        let ghost mid = *self;
        self.add_role(name, role);
        proof {
            assert forall|i: int|
                0 <= i < self.columns@.len() && self.name_at(i) == name@ implies entry_after_role(
                #[trigger] self.info_at(i),
                pre,
                name@,
                role,
            ) by {
                assert(mid.name_at(i) == name@);
                if pre.has(name@) {
                    let w = pre.index_of(name@);
                    assert(0 <= w < pre.columns@.len() && pre.name_at(w) == name@);
                    assert(mid.columns@ == pre.columns@);
                    assert(pre.name_at(i) == name@);
                    lemma_single_name(pre, w);
                    assert(w == i);
                    assert(mid.columns@[i] == pre.columns@[i]);
                } else {
                    assert(i == pre.columns@.len()) by {
                        if i < pre.columns@.len() {
                            assert(pre.name_at(i) == name@);
                        }
                    }
                    assert(mid.info_at(i).roles@ =~= Seq::<VariableRole>::empty());
                    assert(mid.info_at(i).interactions@ =~= Seq::<Interaction>::empty());
                    assert(mid.info_at(i).transformations@ =~= Seq::<Transformation>::empty());
                    assert(mid.info_at(i).random_effects@ =~= Seq::<RandomEffectInfo>::empty());
                }
            }
            assert(mid.has(name@));
            let i = choose|i: int| 0 <= i < mid.columns@.len() && mid.name_at(i) == name@;
            assert(self.name_at(i) == name@);
            assert(with_role(mid.info_at(i).roles@, role).contains(role)) by {
                if !mid.info_at(i).roles@.contains(role) {
                    assert(mid.info_at(i).roles@.push(role)[mid.info_at(i).roles@.len() as int]
                        == role);
                }
            }
            assert(self.info_at(i).roles@.contains(role));
            assert forall|q: int|
                0 <= q < pre.columns@.len() && !set![name@].contains(pre.name_at(q)) implies self.columns@[q]
                == pre.columns@[q] by {
                assert(mid.columns@[q] == pre.columns@[q]);
                assert(mid.name_at(q) != name@);
            }
            assert forall|q: int|
                0 <= q < self.columns@.len() && self.name_at(q) == name@ implies (
                #[trigger] self.info_at(q)).roles@ == with_role(
                    if q < pre.columns@.len() {
                        pre.info_at(q).roles@
                    } else {
                        Seq::empty()
                    },
                    role,
                ) by {
                assert(mid.name_at(q) == name@);
                if q < pre.columns@.len() {
                    assert(mid.columns@[q] == pre.columns@[q]);
                } else {
                    assert(q == pre.columns@.len());
                    assert(mid.info_at(q).roles@.len() == 0);
                    assert(mid.info_at(q).roles@ =~= Seq::<VariableRole>::empty());
                }
            }
        }
    }

    /// A plain column term: registers the variable and marks it `Identity`.
    pub fn push_plain_term(&mut self, name: &str)
        requires
            old(self).wf(),
            old(self).room(1),
        ensures
            final(self).wf(),
            final(self).roles_kept(old(self)),
            !old(self).has(name@) ==> final(self).columns@.len() == old(self).columns@.len() + 1
                && final(self).name_at(old(self).columns@.len() as int) == name@ && texts(
                final(self).info_at(old(self).columns@.len() as int).generated_columns@,
            ) == seq![name@],
            final(self).extends(old(self), 1),
            final(self).untouched_except(old(self), set![name@]),
            final(self).has_role_on(name@, VariableRole::Identity),
            final(self).has_uncorrelated_slopes_and_intercepts
                == old(self).has_uncorrelated_slopes_and_intercepts,
            final(self).is_random_effects_model == old(self).is_random_effects_model,
    {
        self.ensure_with_role(name, VariableRole::Identity);
    }

    /// A function term `fname(args)`: the variable is its first identifier
    /// argument; it is registered, marked `FixedEffect`, and given the
    /// transformation with its parameters and generated columns. Without an
    /// identifier argument nothing is recorded.
    pub fn push_function_term(&mut self, fname: &str, args: &Vec<Argument>)
        requires
            old(self).wf(),
            old(self).room(1),
        ensures
            final(self).wf(),
            final(self).roles_kept(old(self)),
            final(self).extends(old(self), 1),
            final(self).has_uncorrelated_slopes_and_intercepts
                == old(self).has_uncorrelated_slopes_and_intercepts,
            final(self).is_random_effects_model == old(self).is_random_effects_model,
            no_ident(args@) ==> final(self).columns@ == old(self).columns@,
            !no_ident(args@) ==> {
                &&& final(self).untouched_except(old(self), set![base_name(args@)])
                &&& final(self).has_role_on(base_name(args@), VariableRole::FixedEffect)
                &&& exists|i: int|
                    0 <= i < final(self).columns@.len() && final(self).name_at(i) == base_name(
                        args@,
                    ) && transformed_by(final(self).info_at(i), base_name(args@), fname@, args@)
                        && function_entry(
                        final(self).info_at(i),
                        *old(self),
                        base_name(args@),
                        fname@,
                        args@,
                    )
            },
    {
        match first_ident(args) {
            None => {},
            Some(k) => {
                proof {
                    lemma_first_ident_unique(args@, k as int);
                }
                let base: &str = match &args[k] {
                    Argument::Ident(s) => s.as_str(),
                    _ => "unknown",
                };
                let ghost pre = *self;
                self.ensure_with_role(base, VariableRole::FixedEffect);
                let ghost mid = *self;
                let parameters = extract_function_parameters(fname, args);
                let generates_columns = generate_transformation_columns(fname, args);
                let transformation = Transformation {
                    function: fname.to_string(),
                    parameters,
                    generates_columns,
                };
                self.add_transformation(base, transformation);
                proof {
                    assert(base@ == base_name(args@));
                    let i = choose|i: int|
                        0 <= i < mid.columns@.len() && mid.columns@[i].0@ == base@ && mid.columns@[i].1.roles@.contains(VariableRole::FixedEffect);
                    assert(self.name_at(i) == base@);
                    assert(self.info_at(i).roles == mid.info_at(i).roles);
                    assert(transformed_by(self.info_at(i), base@, fname@, args@));
                    assert(entry_after_role(mid.info_at(i), pre, base@, VariableRole::FixedEffect));
                    assert(self.info_at(i).transformations@.drop_last() =~= mid.info_at(
                        i,
                    ).transformations@);
                    assert(function_entry(self.info_at(i), pre, base@, fname@, args@));
                    assert forall|q: int|
                        0 <= q < pre.columns@.len() && !set![base_name(args@)].contains(pre.name_at(q)) implies self.columns@[q]
                        == pre.columns@[q] by {
                        assert(mid.columns@[q] == pre.columns@[q]);
                        assert(mid.name_at(q) != base@);
                    }
                }
            },
        }
    }
}

/// The whole record of `name` after the function term `f(args)` in `old`:
/// its id and other records as before (or fresh), `FixedEffect` added to
/// its roles, and `f(args)` appended to its transformations.
pub open spec fn function_entry(
    v: VariableInfo,
    old: MetaBuilder,
    name: Seq<char>,
    f: Seq<char>,
    args: Seq<Argument>,
) -> bool {
    &&& v.id == old.base_id(name)
    &&& v.roles@ == with_role(old.base_roles(name), VariableRole::FixedEffect)
    &&& v.interactions@ == old.base_interactions(name)
    &&& v.random_effects@ == old.base_random_effects(name)
    &&& v.transformations@.len() == old.base_transformations(name).len() + 1
    &&& v.transformations@.drop_last() == old.base_transformations(name)
}

/// The last transformation of `v` is `f(args)` with its parameter map and
/// generated columns, and `v`'s generated columns follow from it.
pub open spec fn transformed_by(v: VariableInfo, name: Seq<char>, f: Seq<char>, args: Seq<Argument>) -> bool {
    &&& v.transformations@.len() > 0
    &&& v.transformations@.last().function@ == f
    &&& parameters_match(v.transformations@.last().parameters@, f, args)
    &&& texts(v.transformations@.last().generates_columns@) == generated_names(f, args)
    &&& texts(v.generated_columns@) == columns_after_transform(name, v.roles@, generated_names(f, args))
}



/// `cols` with `c` appended unless it is already there.
pub open spec fn appended(cols: Seq<Seq<char>>, c: Seq<char>) -> Seq<Seq<char>> {
    if cols.contains(c) {
        cols
    } else {
        cols.push(c)
    }
}

/// A fixed-effects pairing with `other`: `with` is `[other]`, order 2, no
/// grouping variable.
pub open spec fn fixed_pairing(x: Interaction, other: Seq<char>) -> bool {
    &&& texts(x.with@) == seq![other]
    &&& x.order == 2
    &&& x.context@ == "fixed_effects"@
    &&& x.grouping_variable is None
}

/// The record of one side of `name : other` after the pairing, from its
/// state in `old`: the pairing appended to its interactions, the other
/// records as before, and its columns `cols`.
pub open spec fn paired_entry(
    v: VariableInfo,
    old: MetaBuilder,
    name: Seq<char>,
    other: Seq<char>,
    cols: Seq<Seq<char>>,
) -> bool {
    &&& v.roles@ == with_role(old.base_roles(name), VariableRole::FixedEffect)
    &&& v.interactions@.len() == old.base_interactions(name).len() + 1
    &&& v.interactions@.drop_last() == old.base_interactions(name)
    &&& fixed_pairing(v.interactions@.last(), other)
    &&& v.transformations@ == old.base_transformations(name)
    &&& v.random_effects@ == old.base_random_effects(name)
    &&& texts(v.generated_columns@) == cols
}

/// Registering `other` leaves what `name` had as it was.
proof fn lemma_base_unchanged(a: MetaBuilder, b: MetaBuilder, name: Seq<char>, other: Seq<char>)
    requires
        a.wf(),
        b.wf(),
        name != other,
        a.columns@.len() <= b.columns@.len(),
        forall|i: int| 0 <= i < a.columns@.len() ==> b.name_at(i) == a.name_at(i),
        b.untouched_except(&a, set![other]),
        forall|i: int| a.columns@.len() <= i < b.columns@.len() ==> b.name_at(i) == other,
    ensures
        b.has(name) == a.has(name),
        b.base_roles(name) == a.base_roles(name),
        b.base_interactions(name) == a.base_interactions(name),
        b.base_transformations(name) == a.base_transformations(name),
        b.base_random_effects(name) == a.base_random_effects(name),
        b.base_columns(name) == a.base_columns(name),
{
    if a.has(name) {
        let w = a.index_of(name);
        assert(0 <= w < a.columns@.len() && a.name_at(w) == name);
        assert(b.name_at(w) == name);
        assert(b.columns@[w] == a.columns@[w]);
        assert(b.has(name));
        lemma_single_name(b, w);
        let v = b.index_of(name);
        assert(v == w);
    } else {
        if b.has(name) {
            let v = b.index_of(name);
            if v < a.columns@.len() {
                assert(a.name_at(v) == name);
            }
        }
    }
}

/// `v` records a pairwise interaction with `other` in `context`.
pub open spec fn pairs_with(v: VariableInfo, other: Seq<char>, context: Seq<char>) -> bool {
    exists|k: int|
        0 <= k < v.interactions@.len() && texts(v.interactions@[k].with@) == seq![other]
            && v.interactions@[k].order == 2 && v.interactions@[k].context@ == context
}

/// Whether one of `v` reads `s`.
pub fn contains_text(v: &Vec<String>, s: &str) -> (r: bool)
    ensures
        r == texts(v@).contains(s@),
{
    let mut i: usize = 0;
    while i < v.len()
        invariant
            i <= v@.len(),
            forall|j: int| 0 <= j < i ==> v@[j]@ != s@,
        decreases v@.len() - i,
    {
        if same_text(v[i].as_str(), s) {
            assert(texts(v@)[i as int] == s@);
            return true;
        }
        i = i + 1;
    }
    assert forall|j: int| 0 <= j < texts(v@).len() implies texts(v@)[j] != s@ by {
        assert(texts(v@)[j] == v@[j]@);
    }
    false
}

/// The variable that stands for a term, as `variable_of` gives it.
pub fn extract_variable_name(term: &Term) -> (r: Option<String>)
    ensures
        match variable_of(*term) {
            Some(n) => r is Some && r->0@ == n,
            None => r is None,
        },
    decreases term,
{
    match term {
        Term::Column(name) => Some(name.clone()),
        Term::Function { name: _, args } => match first_ident(args) {
            Some(k) => {
                proof {
                    lemma_first_ident_unique(args@, k as int);
                }
                match &args[k] {
                    Argument::Ident(s) => Some(s.clone()),
                    _ => None,
                }
            },
            None => None,
        },
        Term::Interaction { left, right: _ } => extract_variable_name(left),
        _ => None,
    }
}

impl MetaBuilder {
    /// Appends `column` to `name`'s generated columns unless it is there.
    fn add_generated_column(&mut self, name: &str, column: String)
        requires
            old(self).wf(),
        ensures
            final(self).wf(),
            final(self).records_kept(old(self)),
            final(self).roles_kept(old(self)),
            final(self).same_flags(old(self)),
            final(self).columns@.len() == old(self).columns@.len(),
            forall|i: int|
                0 <= i < old(self).columns@.len() ==> final(self).name_at(i) == old(self).name_at(i),
            forall|i: int|
                0 <= i < old(self).columns@.len() && old(self).name_at(i) != name@ ==> final(self).columns@[i] == old(self).columns@[i],
            forall|i: int|
                0 <= i < old(self).columns@.len() && old(self).name_at(i) == name@ ==> {
                    let a = final(self).info_at(i);
                    let b = old(self).info_at(i);
                    &&& texts(a.generated_columns@).contains(column@)
                    &&& texts(a.generated_columns@) == appended(texts(b.generated_columns@), column@)
                    &&& a.id == b.id
                    &&& a.roles == b.roles
                    &&& a.interactions == b.interactions
                    &&& a.transformations == b.transformations
                    &&& a.random_effects == b.random_effects
                },
    {
        if let Some(i) = self.find(name) {
            if !contains_text(&self.columns[i].1.generated_columns, column.as_str()) {
                let ghost pre = *self;
                let ghost col = column@;
                let mut entry = (String::new(), VariableInfo::empty());
                self.columns.set_and_swap(i, &mut entry);
                entry.1.generated_columns.push(column);
                self.columns.set_and_swap(i, &mut entry);
                proof {
                    let g = self.info_at(i as int).generated_columns@;
                    assert(texts(g)[g.len() - 1] == col);
                    assert(texts(g) =~= texts(pre.info_at(i as int).generated_columns@).push(col));
                    assert(pre.info_at(i as int).roles@.no_duplicates());
                    lemma_update_keeps_wf(pre, *self, i as int);
                    lemma_single_name(pre, i as int);
                }
            } else {
                proof {
                    lemma_single_name(*self, i as int);
                }
            }
        }
    }

    /// An interaction term `left : right` (or `*`): both sides' variables
    /// are registered and marked `FixedEffect`, each records the pairing with
    /// the other, and the left variable gains the column `left_right`. A side
    /// with no variable records nothing.
    pub fn push_interaction(&mut self, left: &Term, right: &Term)
        requires
            old(self).wf(),
            old(self).room(2),
        ensures
            final(self).wf(),
            final(self).roles_kept(old(self)),
            final(self).extends(old(self), 2),
            final(self).has_uncorrelated_slopes_and_intercepts
                == old(self).has_uncorrelated_slopes_and_intercepts,
            final(self).is_random_effects_model == old(self).is_random_effects_model,
            variable_of(*left) is None || variable_of(*right) is None ==> final(self).columns@
                == old(self).columns@,
            variable_of(*left) is Some && variable_of(*right) is Some ==> {
                &&& final(self).untouched_except(
                    old(self),
                    set![variable_of(*left)->0, variable_of(*right)->0],
                )
                &&& final(self).has_role_on(variable_of(*left)->0, VariableRole::FixedEffect)
                &&& final(self).has_role_on(variable_of(*right)->0, VariableRole::FixedEffect)
                &&& exists|i: int|
                    0 <= i < final(self).columns@.len() && final(self).name_at(i) == variable_of(
                        *left,
                    )->0 && texts(final(self).info_at(i).generated_columns@).contains(
                        variable_of(*left)->0 + "_"@ + variable_of(*right)->0,
                    ) && pairs_with(
                        final(self).info_at(i),
                        variable_of(*right)->0,
                        "fixed_effects"@,
                    )
                &&& exists|i: int|
                    0 <= i < final(self).columns@.len() && final(self).name_at(i) == variable_of(
                        *right,
                    )->0 && pairs_with(
                        final(self).info_at(i),
                        variable_of(*left)->0,
                        "fixed_effects"@,
                    )
            },
            variable_of(*left) is Some && variable_of(*right) is Some && variable_of(*left)->0
                != variable_of(*right)->0 ==> {
                let l = variable_of(*left)->0;
                let r = variable_of(*right)->0;
                &&& exists|i: int|
                    0 <= i < final(self).columns@.len() && final(self).name_at(i) == l && paired_entry(
                        final(self).info_at(i),
                        *old(self),
                        l,
                        r,
                        appended(old(self).base_columns(l), l + "_"@ + r),
                    )
                &&& exists|j: int|
                    0 <= j < final(self).columns@.len() && final(self).name_at(j) == r && paired_entry(
                        final(self).info_at(j),
                        *old(self),
                        r,
                        l,
                        old(self).base_columns(r),
                    )
            },
    {
        let left_name = extract_variable_name(left);
        let right_name = extract_variable_name(right);
        if let (Some(l), Some(r)) = (left_name, right_name) {
            let ghost pre = *self;
            let ghost names = set![l@, r@];
            self.ensure_with_role(l.as_str(), VariableRole::FixedEffect);
            let ghost s1 = *self;
            self.ensure_with_role(r.as_str(), VariableRole::FixedEffect);
            let ghost s2 = *self;
            let mut with_right: Vec<String> = Vec::new();
            with_right.push(r.clone());
            let rec_l = Interaction {
                with: with_right,
                order: 2,
                context: "fixed_effects".to_string(),
                grouping_variable: None,
            };
            let ghost gl = rec_l;
            proof {
                assert(texts(gl.with@) =~= seq![r@]);
            }
            self.add_interaction(l.as_str(), rec_l);
            let ghost s3 = *self;
            let mut with_left: Vec<String> = Vec::new();
            with_left.push(l.clone());
            let rec_r = Interaction {
                with: with_left,
                order: 2,
                context: "fixed_effects".to_string(),
                grouping_variable: None,
            };
            let ghost gr = rec_r;
            proof {
                assert(texts(gr.with@) =~= seq![l@]);
            }
            self.add_interaction(r.as_str(), rec_r);
            let ghost s4 = *self;
            let mut column = l.clone();
            column.append("_");
            column.append(r.as_str());
            let ghost column_text = column@;
            self.add_generated_column(l.as_str(), column);
            proof {
                let w = choose|w: int|
                    0 <= w < s1.columns@.len() && s1.columns@[w].0@ == l@ && s1.columns@[w].1.roles@.contains(
                        VariableRole::FixedEffect,
                    );
                assert(s1.name_at(w) == l@);
                assert(s4.name_at(w) == l@);
                assert(self.name_at(w) == l@);
                assert(texts(self.info_at(w).generated_columns@).contains(column_text));
                // the pairing records
                let kl = s2.info_at(w).interactions@.len() as int;
                assert(s2.name_at(w) == l@);
                assert(s3.info_at(w).interactions@[kl] == gl);
                assert(s4.info_at(w).interactions@[kl] == gl) by {
                    if l@ == r@ {
                        assert(s4.info_at(w).interactions@ == s3.info_at(w).interactions@.push(gr));
                    } else {
                        lemma_single_name(s3, w);
                        assert(s4.columns@[w] == s3.columns@[w]);
                    }
                }
                assert(self.info_at(w).interactions@[kl] == gl);
                assert(pairs_with(self.info_at(w), r@, "fixed_effects"@));
                let v = choose|v: int|
                    0 <= v < s2.columns@.len() && s2.columns@[v].0@ == r@ && s2.columns@[v].1.roles@.contains(
                        VariableRole::FixedEffect,
                    );
                assert(s2.name_at(v) == r@);
                assert(s3.name_at(v) == r@);
                let kr = s3.info_at(v).interactions@.len() as int;
                assert(s4.info_at(v).interactions@[kr] == gr);
                assert(self.info_at(v).interactions@[kr] == gr) by {
                    if l@ == r@ {
                    } else {
                        lemma_single_name(s4, v);
                        assert(self.columns@[v] == s4.columns@[v]);
                    }
                }
                assert(self.name_at(v) == r@);
                assert(pairs_with(self.info_at(v), l@, "fixed_effects"@));
                if l@ != r@ {
                    assert(entry_after_role(s1.info_at(w), pre, l@, VariableRole::FixedEffect));
                    assert(entry_after_role(s2.info_at(v), s1, r@, VariableRole::FixedEffect));
                    assert forall|q: int| pre.columns@.len() <= q < s1.columns@.len() implies s1.name_at(q) == l@ by {
                        assert(q == pre.columns@.len());
                    }
                    lemma_base_unchanged(pre, s1, r@, l@);
                    assert(s2.columns@[w] == s1.columns@[w]);
                    lemma_single_name(s3, w);
                    assert(s4.columns@[w] == s3.columns@[w]);
                    assert(s3.info_at(w).interactions@ == s2.info_at(w).interactions@.push(gl));
                    assert(self.info_at(w).interactions@ == s4.info_at(w).interactions@);
                    assert(self.info_at(w).interactions@.drop_last() =~= pre.base_interactions(l@));
                    assert(paired_entry(
                        self.info_at(w),
                        pre,
                        l@,
                        r@,
                        appended(pre.base_columns(l@), column_text),
                    ));
                    lemma_single_name(s2, v);
                    assert(s3.columns@[v] == s2.columns@[v]);
                    assert(s4.info_at(v).interactions@ == s3.info_at(v).interactions@.push(gr));
                    lemma_single_name(s4, v);
                    assert(self.columns@[v] == s4.columns@[v]);
                    assert(self.info_at(v).interactions@.drop_last() =~= pre.base_interactions(r@));
                    assert(paired_entry(self.info_at(v), pre, r@, l@, pre.base_columns(r@)));
                }
                lemma_roles_kept_trans(pre, s1, s2);
                lemma_roles_kept_trans(pre, s2, s3);
                lemma_roles_kept_trans(pre, s3, s4);
                lemma_roles_kept_trans(pre, s4, *self);
                // both roles survive the later steps
                let i = choose|i: int|
                    0 <= i < s1.columns@.len() && s1.columns@[i].0@ == l@ && s1.columns@[i].1.roles@.contains(VariableRole::FixedEffect);
                assert(s2.name_at(i) == l@);
                assert(s2.info_at(i).roles@.contains(VariableRole::FixedEffect)) by {
                    if l@ != r@ {
                        assert(s2.columns@[i] == s1.columns@[i]);
                    } else {
                        let w = choose|w: int|
                            0 <= w < s2.columns@.len() && s2.columns@[w].0@ == r@ && s2.columns@[w].1.roles@.contains(VariableRole::FixedEffect);
                        lemma_single_name(s2, w);
                    }
                }
                assert(self.name_at(i) == l@);
                assert(self.info_at(i).roles == s2.info_at(i).roles) by {
                    assert(s3.info_at(i).roles == s2.info_at(i).roles);
                    if s3.name_at(i) == r@ {
                        assert(s4.info_at(i).roles == s3.info_at(i).roles);
                    } else {
                        assert(s4.columns@[i] == s3.columns@[i]);
                    }
                }
                let j = choose|j: int|
                    0 <= j < s2.columns@.len() && s2.columns@[j].0@ == r@ && s2.columns@[j].1.roles@.contains(VariableRole::FixedEffect);
                assert(self.name_at(j) == r@);
                assert(self.info_at(j).roles == s2.info_at(j).roles) by {
                    if s2.name_at(j) == l@ {
                        assert(s3.info_at(j).roles == s2.info_at(j).roles);
                    } else {
                        assert(s3.columns@[j] == s2.columns@[j]);
                    }
                    assert(s4.info_at(j).roles == s3.info_at(j).roles);
                    if s4.name_at(j) == l@ {
                        assert(self.info_at(j).roles == s4.info_at(j).roles);
                    } else {
                        assert(self.columns@[j] == s4.columns@[j]);
                    }
                }
                assert forall|q: int|
                    0 <= q < pre.columns@.len() && !names.contains(pre.name_at(q)) implies self.columns@[q]
                    == pre.columns@[q] by {
                    assert(s1.columns@[q] == pre.columns@[q]);
                    assert(s1.name_at(q) != l@);
                    assert(s2.columns@[q] == s1.columns@[q]);
                    assert(s2.name_at(q) != r@);
                    assert(s3.columns@[q] == s2.columns@[q]);
                    assert(s4.columns@[q] == s3.columns@[q]);
                }
            }
        }
    }
}


/// Names joined with `_`.
pub open spec fn joined(v: Seq<Seq<char>>) -> Seq<char>
    decreases v.len(),
{
    if v.len() == 0 {
        Seq::empty()
    } else if v.len() == 1 {
        v[0]
    } else {
        joined(v.drop_last()) + "_"@ + v.last()
    }
}

/// The name of the grouping variable of a block: the group, the
/// multi-membership groups joined with `_`, `left:right` for crossed and
/// `outer/inner` for nested grouping.
pub open spec fn grouping_name(g: Grouping) -> Seq<char> {
    match g {
        Grouping::Simple(n) => n@,
        Grouping::Gr { group, options } => group@,
        Grouping::Mm { groups } => joined(texts(groups@)),
        Grouping::Interaction { left, right } => left@ + ":"@ + right@,
        Grouping::Nested { outer, inner } => outer@ + "/"@ + inner@,
    }
}

/// Whether a block's terms remove its intercept (`0 + ...`, `-1`, `-0`).
pub open spec fn suppresses_intercept(terms: Seq<RandomTerm>) -> bool {
    exists|k: int| 0 <= k < terms.len() && terms[k] is SuppressIntercept
}

/// The grouping variable's name, as `grouping_name` gives it.
pub fn grouping_name_of(g: &Grouping) -> (r: String)
    ensures
        r@ == grouping_name(*g),
{
    match g {
        Grouping::Simple(n) => n.clone(),
        Grouping::Gr { group, options: _ } => group.clone(),
        Grouping::Mm { groups } => {
            let mut out = String::new();
            let mut i: usize = 0;
            while i < groups.len()
                invariant
                    i <= groups@.len(),
                    out@ == joined(texts(groups@.subrange(0, i as int))),
                decreases groups@.len() - i,
            {
                let ghost prev = groups@.subrange(0, i as int);
                if i > 0 {
                    out.append("_");
                }
                out.append(groups[i].as_str());
                i = i + 1;
                proof {
                    let now = groups@.subrange(0, i as int);
                    assert(texts(now).drop_last() =~= texts(prev));
                    assert(texts(now).last() == groups@[i - 1]@);
                    if i == 1 {
                        assert(out@ =~= groups@[0]@);
                    }
                }
            }
            assert(groups@.subrange(0, groups@.len() as int) =~= groups@);
            out
        },
        Grouping::Interaction { left, right } => {
            let mut out = left.clone();
            out.append(":");
            out.append(right.as_str());
            out
        },
        Grouping::Nested { outer, inner } => {
            let mut out = outer.clone();
            out.append("/");
            out.append(inner.as_str());
            out
        },
    }
}

/// Whether a block's terms hold `SuppressIntercept`.
fn has_suppression(terms: &Vec<RandomTerm>) -> (r: bool)
    ensures
        r == suppresses_intercept(terms@),
{
    let mut k: usize = 0;
    while k < terms.len()
        invariant
            k <= terms@.len(),
            forall|j: int| 0 <= j < k ==> !(terms@[j] is SuppressIntercept),
        decreases terms@.len() - k,
    {
        if let RandomTerm::SuppressIntercept = &terms[k] {
            return true;
        }
        k = k + 1;
    }
    false
}

/// The name standing for one side of an interaction inside a block: a
/// column's name, `interaction` for anything else.
fn side_name(t: &RandomTerm) -> (r: String)
    ensures
        match *t {
            RandomTerm::Column(n) => r@ == n@,
            _ => r@ == "interaction"@,
        },
{
    match t {
        RandomTerm::Column(n) => n.clone(),
        _ => "interaction".to_string(),
    }
}

/// A `slope` record of a block term.
fn slope_info(grouping: &String, has_intercept: bool, correlated: bool) -> (r: RandomEffectInfo)
    ensures
        r.kind@ == "slope"@,
        r.grouping_variable@ == grouping@,
        r.has_intercept == has_intercept,
        r.correlated == correlated,
        r.variables is None,
        r.includes_interactions@.len() == 0,
{
    RandomEffectInfo {
        kind: "slope".to_string(),
        grouping_variable: grouping.clone(),
        has_intercept,
        correlated,
        includes_interactions: Vec::new(),
        variables: None,
    }
}

/// The variable a block term gives a slope to: a column other than the
/// intercept `1`, or a function's first identifier argument.
pub open spec fn slope_variable(t: RandomTerm) -> Option<Seq<char>> {
    match t {
        RandomTerm::Column(n) => if n@ == "1"@ {
            None
        } else {
            Some(n@)
        },
        RandomTerm::Function { name, args } => if no_ident(args@) {
            None
        } else {
            Some(base_name(args@))
        },
        _ => None,
    }
}

/// A role, once given, stays through steps that keep roles and names.
proof fn lemma_role_persists(a: MetaBuilder, c: MetaBuilder, n: Seq<char>, r: VariableRole)
    requires
        a.has_role_on(n, r),
        c.roles_kept(&a),
        a.columns@.len() <= c.columns@.len(),
        forall|i: int| 0 <= i < a.columns@.len() ==> c.name_at(i) == a.name_at(i),
    ensures
        c.has_role_on(n, r),
{
    let i = choose|i: int|
        0 <= i < a.columns@.len() && a.columns@[i].0@ == n && a.columns@[i].1.roles@.contains(r);
    assert(a.info_at(i).roles@.contains(r));
    assert(c.info_at(i).roles@.contains(r));
    assert(c.name_at(i) == n);
}

/// A `slope` record for grouping `g`, with the block's intercept and
/// correlation.
pub open spec fn slope_record(x: RandomEffectInfo, g: Seq<char>, hi: bool, correlated: bool) -> bool {
    &&& x.kind@ == "slope"@
    &&& x.grouping_variable@ == g
    &&& x.has_intercept == hi
    &&& x.correlated == correlated
    &&& x.variables is None
    &&& x.includes_interactions@.len() == 0
}

/// The variable called `n` holds a slope record for grouping `g`.
pub open spec fn has_slope(mb: MetaBuilder, n: Seq<char>, g: Seq<char>, hi: bool, correlated: bool) -> bool {
    exists|i: int, k: int|
        0 <= i < mb.columns@.len() && mb.name_at(i) == n && 0 <= k < mb.info_at(
            i,
        ).random_effects@.len() && slope_record(mb.info_at(i).random_effects@[k], g, hi, correlated)
}

/// Keeping records is transitive.
proof fn lemma_records_kept_trans(a: MetaBuilder, b: MetaBuilder, c: MetaBuilder)
    requires
        b.records_kept(&a),
        c.records_kept(&b),
        a.columns@.len() <= b.columns@.len(),
    ensures
        c.records_kept(&a),
{
    assert forall|i: int| 0 <= i < a.columns@.len() implies a.info_at(i).random_effects@.len() <= (
    #[trigger] c.info_at(i)).random_effects@.len() by {
        assert(a.info_at(i).random_effects@.len() <= b.info_at(i).random_effects@.len());
    }
    assert forall|i: int, k: int|
        0 <= i < a.columns@.len() && 0 <= k < a.info_at(i).random_effects@.len() implies #[trigger] c.info_at(
            i,
        ).random_effects@[k] == a.info_at(i).random_effects@[k] by {
        assert(a.info_at(i).random_effects@.len() <= b.info_at(i).random_effects@.len());
        assert(b.info_at(i).random_effects@[k] == a.info_at(i).random_effects@[k]);
    }
}

/// A slope record, once there, stays through steps that keep records and
/// names.
proof fn lemma_slope_persists(
    a: MetaBuilder,
    c: MetaBuilder,
    n: Seq<char>,
    g: Seq<char>,
    hi: bool,
    correlated: bool,
)
    requires
        has_slope(a, n, g, hi, correlated),
        c.records_kept(&a),
        a.columns@.len() <= c.columns@.len(),
        forall|i: int| 0 <= i < a.columns@.len() ==> c.name_at(i) == a.name_at(i),
    ensures
        has_slope(c, n, g, hi, correlated),
{
    let (i, k) = choose|i: int, k: int|
        0 <= i < a.columns@.len() && a.name_at(i) == n && 0 <= k < a.info_at(
            i,
        ).random_effects@.len() && slope_record(a.info_at(i).random_effects@[k], g, hi, correlated);
    assert(a.info_at(i).random_effects@.len() <= c.info_at(i).random_effects@.len());
    assert(c.info_at(i).random_effects@[k] == a.info_at(i).random_effects@[k]);
    assert(c.name_at(i) == n);
}

/// The `grouping` summary record that a block leaves on its grouping variable.
pub open spec fn summarizes(info: RandomEffectInfo, re: RandomEffect) -> bool {
    &&& info.kind@ == "grouping"@
    &&& info.grouping_variable@ == grouping_name(re.grouping)
    &&& info.has_intercept == !suppresses_intercept(re.terms@)
    &&& info.correlated == !(re.correlation is Uncorrelated)
    &&& info.variables matches Some(v) && texts(v@) == slope_list(re.terms@)
    &&& texts(info.includes_interactions@) == pairing_list(re.terms@)
}

/// The slope variables of a block's terms, in order.
pub open spec fn slope_list(terms: Seq<RandomTerm>) -> Seq<Seq<char>>
    decreases terms.len(),
{
    if terms.len() == 0 {
        Seq::empty()
    } else {
        slope_list(terms.drop_last()) + match slope_variable(terms.last()) {
            Some(n) => seq![n],
            None => Seq::empty(),
        }
    }
}

/// The name of one side of an interaction inside a block.
pub open spec fn side_text(t: RandomTerm) -> Seq<char> {
    match t {
        RandomTerm::Column(n) => n@,
        _ => "interaction"@,
    }
}

/// The `left:right` pairings of a block's interaction terms, in order.
pub open spec fn pairing_list(terms: Seq<RandomTerm>) -> Seq<Seq<char>>
    decreases terms.len(),
{
    if terms.len() == 0 {
        Seq::empty()
    } else {
        pairing_list(terms.drop_last()) + match terms.last() {
            RandomTerm::Interaction { left, right } => seq![side_text(*left) + ":"@ + side_text(*right)],
            _ => Seq::empty(),
        }
    }
}

impl MetaBuilder {
    /// A random-effects block. The model becomes a random-effects model, and
    /// one with uncorrelated slopes and intercepts if the block uses `||`.
    /// Each column or function term's variable is registered, marked
    /// `RandomEffect` and given a `slope` record (a function term also its
    /// transformation); an interaction term records the pairing on both
    /// sides; then the grouping variable is registered, marked
    /// `GroupingVariable`, and given the block's `grouping` summary. The block
    /// has an intercept unless its terms suppress it.
    pub fn push_random_effect(&mut self, random_effect: &RandomEffect)
        requires
            old(self).wf(),
            old(self).room(random_effect.terms@.len() as int + 1),
        ensures
            final(self).wf(),
            final(self).roles_kept(old(self)),
            final(self).extends(old(self), random_effect.terms@.len() as int + 1),
            final(self).is_random_effects_model,
            final(self).has_uncorrelated_slopes_and_intercepts == (
            old(self).has_uncorrelated_slopes_and_intercepts
                || random_effect.correlation is Uncorrelated),
            final(self).has_role_on(
                grouping_name(random_effect.grouping),
                VariableRole::GroupingVariable,
            ),
            forall|j: int|
                0 <= j < random_effect.terms@.len() && slope_variable(
                    #[trigger] random_effect.terms@[j],
                ) is Some ==> has_slope(
                    *final(self),
                    slope_variable(random_effect.terms@[j])->0,
                    grouping_name(random_effect.grouping),
                    !suppresses_intercept(random_effect.terms@),
                    !(random_effect.correlation is Uncorrelated),
                ),
            forall|j: int|
                0 <= j < random_effect.terms@.len() && slope_variable(
                    #[trigger] random_effect.terms@[j],
                ) is Some ==> final(self).has_role_on(
                    slope_variable(random_effect.terms@[j])->0,
                    VariableRole::RandomEffect,
                ),
            exists|i: int|
                0 <= i < final(self).columns@.len() && final(self).name_at(i) == grouping_name(
                    random_effect.grouping,
                ) && final(self).info_at(i).random_effects@.len() > 0 && summarizes(
                    final(self).info_at(i).random_effects@.last(),
                    *random_effect,
                ),
    {
        self.is_random_effects_model = true;
        if let CorrelationType::Uncorrelated = random_effect.correlation {
            self.has_uncorrelated_slopes_and_intercepts = true;
        }
        let ghost start = *self;
        proof {
            lemma_flags_keep_wf(*old(self), start);
        }
        let grouping_var = grouping_name_of(&random_effect.grouping);
        let has_intercept = !has_suppression(&random_effect.terms);
        let correlated = match random_effect.correlation {
            CorrelationType::Uncorrelated => false,
            _ => true,
        };
        let mut variables: Vec<String> = Vec::new();
        let mut interactions: Vec<String> = Vec::new();
        let terms = &random_effect.terms;
        let mut k: usize = 0;
        while k < terms.len()
            invariant
                k <= terms@.len(),
                self.wf(),
                self.extends(&start, k as int),
                start.room(terms@.len() as int + 1),
                self.is_random_effects_model,
                self.has_uncorrelated_slopes_and_intercepts
                    == start.has_uncorrelated_slopes_and_intercepts,
                self.roles_kept(&start),
                self.records_kept(&start),
                grouping_var@ == grouping_name(random_effect.grouping),
                has_intercept == !suppresses_intercept(terms@),
                correlated == !(random_effect.correlation is Uncorrelated),
                forall|j: int|
                    0 <= j < k && slope_variable(#[trigger] terms@[j]) is Some ==> has_slope(
                        *self,
                        slope_variable(terms@[j])->0,
                        grouping_name(random_effect.grouping),
                        !suppresses_intercept(terms@),
                        !(random_effect.correlation is Uncorrelated),
                    ),
                texts(variables@) == slope_list(terms@.subrange(0, k as int)),
                texts(interactions@) == pairing_list(terms@.subrange(0, k as int)),
                forall|j: int|
                    0 <= j < k && slope_variable(#[trigger] terms@[j]) is Some ==> self.has_role_on(
                        slope_variable(terms@[j])->0,
                        VariableRole::RandomEffect,
                    ),
            decreases terms@.len() - k,
        {
            let ghost before = *self;
            let ghost vars_before = texts(variables@);
            let ghost pairs_before = texts(interactions@);
            proof {
                assert(terms@.subrange(0, k + 1).drop_last() =~= terms@.subrange(0, k as int));
                assert(terms@.subrange(0, k + 1).last() == terms@[k as int]);
            }
            match &terms[k] {
                RandomTerm::Column(name) => {
                    if !same_text(name.as_str(), "1") {
                        self.ensure_with_role(name.as_str(), VariableRole::RandomEffect);
                        let ghost s1 = *self;
                        variables.push(name.clone());
                        assert(texts(variables@) =~= vars_before + seq![name@]);
                        let info = slope_info(&grouping_var, has_intercept, correlated);
                        let ghost iv = info;
                        self.add_random_effect(name.as_str(), info);
                        proof {
                            lemma_roles_kept_trans(before, s1, *self);
                            lemma_records_kept_trans(before, s1, *self);
                            lemma_role_persists(s1, *self, name@, VariableRole::RandomEffect);
                            let w = choose|w: int|
                                0 <= w < s1.columns@.len() && s1.columns@[w].0@ == name@
                                    && s1.columns@[w].1.roles@.contains(VariableRole::RandomEffect);
                            assert(s1.name_at(w) == name@);
                            assert(self.name_at(w) == name@);
                            let kk = s1.info_at(w).random_effects@.len() as int;
                            assert(self.info_at(w).random_effects@[kk] == iv);
                            assert(has_slope(
                                *self,
                                name@,
                                grouping_name(random_effect.grouping),
                                !suppresses_intercept(terms@),
                                !(random_effect.correlation is Uncorrelated),
                            ));
                        }
                    }
                },
                RandomTerm::Function { name: func_name, args } => {
                    if let Some(b) = first_ident(args) {
                        proof {
                            lemma_first_ident_unique(args@, b as int);
                        }
                        let base: &str = match &args[b] {
                            Argument::Ident(s) => s.as_str(),
                            _ => "unknown",
                        };
                        self.ensure_with_role(base, VariableRole::RandomEffect);
                        let ghost s1 = *self;
                        variables.push(base.to_string());
                        assert(texts(variables@) =~= vars_before + seq![base@]);
                        let parameters = extract_function_parameters(func_name.as_str(), args);
                        let generates_columns = generate_transformation_columns(
                            func_name.as_str(),
                            args,
                        );
                        self.add_transformation(
                            base,
                            Transformation {
                                function: func_name.clone(),
                                parameters,
                                generates_columns,
                            },
                        );
                        let ghost s2 = *self;
                        let info = slope_info(&grouping_var, has_intercept, correlated);
                        let ghost iv = info;
                        self.add_random_effect(base, info);
                        proof {
                            lemma_roles_kept_trans(s1, s2, *self);
                            lemma_roles_kept_trans(before, s1, *self);
                            lemma_records_kept_trans(s1, s2, *self);
                            lemma_records_kept_trans(before, s1, *self);
                            lemma_role_persists(s1, *self, base@, VariableRole::RandomEffect);
                            let w = choose|w: int|
                                0 <= w < s1.columns@.len() && s1.columns@[w].0@ == base@
                                    && s1.columns@[w].1.roles@.contains(VariableRole::RandomEffect);
                            assert(s1.name_at(w) == base@);
                            assert(s2.name_at(w) == base@);
                            assert(self.name_at(w) == base@);
                            let kk = s2.info_at(w).random_effects@.len() as int;
                            assert(self.info_at(w).random_effects@[kk] == iv);
                            assert(has_slope(
                                *self,
                                base@,
                                grouping_name(random_effect.grouping),
                                !suppresses_intercept(terms@),
                                !(random_effect.correlation is Uncorrelated),
                            ));
                        }
                    }
                },
                RandomTerm::Interaction { left, right } => {
                    let left_name = side_name(left);
                    let right_name = side_name(right);
                    let mut pairing = left_name.clone();
                    pairing.append(":");
                    pairing.append(right_name.as_str());
                    let ghost pairing_text = pairing@;
                    interactions.push(pairing);
                    assert(texts(interactions@) =~= pairs_before + seq![pairing_text]);
                    let mut with_right: Vec<String> = Vec::new();
                    with_right.push(right_name.clone());
                    self.add_interaction(
                        left_name.as_str(),
                        Interaction {
                            with: with_right,
                            order: 2,
                            context: "random_effects".to_string(),
                            grouping_variable: Some(grouping_var.clone()),
                        },
                    );
                    let ghost s1 = *self;
                    let mut with_left: Vec<String> = Vec::new();
                    with_left.push(left_name.clone());
                    self.add_interaction(
                        right_name.as_str(),
                        Interaction {
                            with: with_left,
                            order: 2,
                            context: "random_effects".to_string(),
                            grouping_variable: Some(grouping_var.clone()),
                        },
                    );
                    proof {
                        lemma_roles_kept_trans(before, s1, *self);
                        lemma_records_kept_trans(before, s1, *self);
                    }
                },
                RandomTerm::SuppressIntercept => {},
            }
            proof {
                lemma_roles_kept_trans(start, before, *self);
                lemma_records_kept_trans(start, before, *self);
                assert forall|j: int|
                    0 <= j < k + 1 && slope_variable(#[trigger] terms@[j]) is Some implies has_slope(
                        *self,
                        slope_variable(terms@[j])->0,
                        grouping_name(random_effect.grouping),
                        !suppresses_intercept(terms@),
                        !(random_effect.correlation is Uncorrelated),
                    ) by {
                    if j < k {
                        lemma_slope_persists(
                            before,
                            *self,
                            slope_variable(terms@[j])->0,
                            grouping_name(random_effect.grouping),
                            !suppresses_intercept(terms@),
                            !(random_effect.correlation is Uncorrelated),
                        );
                    }
                }
                assert forall|j: int|
                    0 <= j < k + 1 && slope_variable(#[trigger] terms@[j]) is Some implies self.has_role_on(
                        slope_variable(terms@[j])->0,
                        VariableRole::RandomEffect,
                    ) by {
                    if j < k {
                        lemma_role_persists(
                            before,
                            *self,
                            slope_variable(terms@[j])->0,
                            VariableRole::RandomEffect,
                        );
                    }
                }
            }
            k = k + 1;
        }
        let ghost after_terms = *self;
        proof {
            assert(terms@.subrange(0, terms@.len() as int) =~= terms@);
        }
        self.ensure_with_role(grouping_var.as_str(), VariableRole::GroupingVariable);
        let ghost mid = *self;
        proof {
            lemma_roles_kept_trans(start, after_terms, mid);
        }
        let summary = RandomEffectInfo {
            kind: "grouping".to_string(),
            grouping_variable: grouping_var.clone(),
            has_intercept,
            correlated,
            includes_interactions: interactions,
            variables: Some(variables),
        };
        let ghost summary_view = summary;
        self.add_random_effect(grouping_var.as_str(), summary);
        proof {
            lemma_roles_kept_trans(start, mid, *self);
            lemma_roles_kept_trans(*old(self), start, *self);
            lemma_roles_kept_trans(after_terms, mid, *self);
            lemma_records_kept_trans(after_terms, mid, *self);
            assert forall|j: int|
                0 <= j < terms@.len() && slope_variable(#[trigger] terms@[j]) is Some implies has_slope(
                    *self,
                    slope_variable(terms@[j])->0,
                    grouping_name(random_effect.grouping),
                    !suppresses_intercept(terms@),
                    !(random_effect.correlation is Uncorrelated),
                ) by {
                lemma_slope_persists(
                    after_terms,
                    *self,
                    slope_variable(terms@[j])->0,
                    grouping_name(random_effect.grouping),
                    !suppresses_intercept(terms@),
                    !(random_effect.correlation is Uncorrelated),
                );
            }
            assert forall|j: int|
                0 <= j < terms@.len() && slope_variable(#[trigger] terms@[j]) is Some implies self.has_role_on(
                    slope_variable(terms@[j])->0,
                    VariableRole::RandomEffect,
                ) by {
                lemma_role_persists(
                    after_terms,
                    *self,
                    slope_variable(terms@[j])->0,
                    VariableRole::RandomEffect,
                );
            }
            let i = choose|i: int|
                0 <= i < mid.columns@.len() && mid.columns@[i].0@ == grouping_var@ && mid.columns@[i].1.roles@.contains(VariableRole::GroupingVariable);
            assert(self.name_at(i) == grouping_var@);
            assert(self.info_at(i).roles == mid.info_at(i).roles);
            assert(self.info_at(i).random_effects@.last() == summary_view);
            assert(summarizes(summary_view, *random_effect));
        }
    }
}


/// The generated columns of `cols`, concatenated in order.
pub open spec fn flat(cols: Seq<(String, VariableInfo)>) -> Seq<Seq<char>>
    decreases cols.len(),
{
    if cols.len() == 0 {
        Seq::empty()
    } else {
        flat(cols.drop_last()) + texts(cols.last().1.generated_columns@)
    }
}

/// The document's column list: the generated columns of the first `k`
/// variables (the responses), then `intercept` if the model has one, then
/// those of the others.
pub open spec fn column_layout(cols: Seq<(String, VariableInfo)>, k: int, has_intercept: bool) -> Seq<
    Seq<char>,
> {
    flat(cols.subrange(0, k)) + (if has_intercept {
        seq!["intercept"@]
    } else {
        Seq::empty()
    }) + flat(cols.subrange(k, cols.len() as int))
}

/// `order` numbers `all` from 1: entry `k` is `(k + 1, all[k])`.
pub open spec fn numbers(order: Seq<(String, String)>, all: Seq<String>) -> bool {
    &&& order.len() == all.len()
    &&& forall|k: int|
        0 <= k < order.len() ==> (#[trigger] order[k]).0@ == decimal_text((k + 1) as nat)
            && order[k].1@ == all[k]@
}

proof fn lemma_flat_step(cols: Seq<(String, VariableInfo)>, a: int, b: int)
    requires
        0 <= a <= b < cols.len(),
    ensures
        flat(cols.subrange(a, b + 1)) == flat(cols.subrange(a, b)) + texts(
            cols[b].1.generated_columns@,
        ),
{
    assert(cols.subrange(a, b + 1).drop_last() =~= cols.subrange(a, b));
}

/// Appends copies of `v` to `all`.
fn append_copies(all: &mut Vec<String>, v: &Vec<String>)
    ensures
        texts(final(all)@) == texts(old(all)@) + texts(v@),
{
    let ghost base = all@;
    let mut j: usize = 0;
    while j < v.len()
        invariant
            j <= v@.len(),
            all@.len() == base.len() + j,
            forall|q: int| 0 <= q < base.len() ==> (#[trigger] all@[q]) == base[q],
            forall|q: int| 0 <= q < j ==> (#[trigger] all@[base.len() + q])@ == v@[q]@,
            base == old(all)@,
        decreases v@.len() - j,
    {
        all.push(v[j].clone());
        j = j + 1;
    }
    assert forall|q: int| 0 <= q < all@.len() implies texts(all@)[q] == (texts(base) + texts(v@))[q] by {
        if q >= base.len() {
            assert(all@[base.len() + (q - base.len())] == all@[q]);
        }
    }
    assert(texts(all@) =~= texts(base) + texts(v@));
}

impl MetaBuilder {
    /// Produces the document: the echoed input, the model-wide facts, the
    /// variables in id order, their generated columns concatenated with
    /// `intercept` after the responses' columns when the model has one, and
    /// that list numbered from 1.
    pub fn build(self, input: &str, has_intercept: bool, family: Option<String>) -> (r:
        FormulaMetaData)
        requires
            self.wf(),
        ensures
            r.formula@ == input@,
            r.columns@ == self.columns@,
            r.metadata.has_intercept == has_intercept,
            r.metadata.is_random_effects_model == self.is_random_effects_model,
            r.metadata.has_uncorrelated_slopes_and_intercepts
                == self.has_uncorrelated_slopes_and_intercepts,
            r.metadata.family == family,
            r.metadata.response_variable_count as int == self.n_responses,
            texts(r.all_generated_columns@) == column_layout(
                self.columns@,
                self.n_responses as int,
                has_intercept,
            ),
            numbers(r.all_generated_columns_formula_order@, r.all_generated_columns@),
    {
        let cols = &self.columns;
        let k = self.n_responses;
        let mut all: Vec<String> = Vec::new();
        let mut i: usize = 0;
        while i < k
            invariant
                k <= cols@.len(),
                i <= k,
                texts(all@) == flat(cols@.subrange(0, i as int)),
            decreases k - i,
        {
            append_copies(&mut all, &cols[i].1.generated_columns);
            proof {
                lemma_flat_step(cols@, 0, i as int);
            }
            i = i + 1;
        }
        if has_intercept {
            all.push("intercept".to_string());
        }
        let ghost head = texts(all@);
        assert(cols@.subrange(k as int, k as int) =~= Seq::<(String, VariableInfo)>::empty());
        assert(head + flat(cols@.subrange(k as int, k as int)) =~= head);
        while i < cols.len()
            invariant
                k <= i <= cols@.len(),
                head == flat(cols@.subrange(0, k as int)) + (if has_intercept {
                    seq!["intercept"@]
                } else {
                    Seq::empty()
                }),
                texts(all@) == head + flat(cols@.subrange(k as int, i as int)),
            decreases cols@.len() - i,
        {
            append_copies(&mut all, &cols[i].1.generated_columns);
            proof {
                lemma_flat_step(cols@, k as int, i as int);
                assert(head + flat(cols@.subrange(k as int, i + 1)) =~= head + flat(
                    cols@.subrange(k as int, i as int),
                ) + texts(cols@[i as int].1.generated_columns@));
            }
            i = i + 1;
        }
        let mut order: Vec<(String, String)> = Vec::new();
        let mut q: usize = 0;
        while q < all.len()
            invariant
                q <= all@.len(),
                order@.len() == q,
                forall|j: int|
                    0 <= j < q ==> (#[trigger] order@[j]).0@ == decimal_text((j + 1) as nat)
                        && order@[j].1@ == all@[j]@,
            decreases all@.len() - q,
        {
            order.push((decimal_string(q + 1), all[q].clone()));
            q = q + 1;
        }
        let metadata = FormulaMetadataInfo {
            has_intercept,
            is_random_effects_model: self.is_random_effects_model,
            has_uncorrelated_slopes_and_intercepts: self.has_uncorrelated_slopes_and_intercepts,
            family,
            response_variable_count: k as u32,
        };
        FormulaMetaData {
            formula: input.to_string(),
            metadata,
            columns: self.columns,
            all_generated_columns: all,
            all_generated_columns_formula_order: order,
        }
    }
}


/// The roles that registering term `t` gives, as facts about `mb`: a column
/// is `Identity`; a function's variable `FixedEffect`; both sides of an
/// interaction `FixedEffect`; a block's grouping variable
/// `GroupingVariable` and its slope variables `RandomEffect`.
pub open spec fn term_roles_hold(mb: MetaBuilder, t: Term) -> bool {
    term_roles_in(mb.columns@, t)
}

/// `term_roles_hold` over a list of variables.
pub open spec fn term_roles_in(cols: Seq<(String, VariableInfo)>, t: Term) -> bool {
    match t {
        Term::Column(n) => role_in(cols, n@, VariableRole::Identity),
        Term::Function { name, args } => !no_ident(args@) ==> role_in(cols, 
            base_name(args@),
            VariableRole::FixedEffect,
        ),
        Term::Interaction { left, right } => variable_of(*left) is Some && variable_of(
            *right,
        ) is Some ==> role_in(cols, variable_of(*left)->0, VariableRole::FixedEffect)
            && role_in(cols, variable_of(*right)->0, VariableRole::FixedEffect),
        Term::RandomEffect(re) => {
            &&& role_in(cols, grouping_name(re.grouping), VariableRole::GroupingVariable)
            &&& forall|j: int|
                0 <= j < re.terms@.len() && slope_variable(#[trigger] re.terms@[j]) is Some
                    ==> role_in(cols, slope_variable(re.terms@[j])->0, VariableRole::RandomEffect)
        },
        _ => true,
    }
}

/// Term facts survive later steps that keep roles and names.
pub proof fn lemma_term_roles_persist(a: MetaBuilder, c: MetaBuilder, t: Term)
    requires
        term_roles_hold(a, t),
        c.roles_kept(&a),
        a.columns@.len() <= c.columns@.len(),
        forall|i: int| 0 <= i < a.columns@.len() ==> c.name_at(i) == a.name_at(i),
    ensures
        term_roles_hold(c, t),
{
    match t {
        Term::Column(n) => {
            lemma_role_persists(a, c, n@, VariableRole::Identity);
        },
        Term::Function { name, args } => {
            if !no_ident(args@) {
                lemma_role_persists(a, c, base_name(args@), VariableRole::FixedEffect);
            }
        },
        Term::Interaction { left, right } => {
            if variable_of(*left) is Some && variable_of(*right) is Some {
                lemma_role_persists(a, c, variable_of(*left)->0, VariableRole::FixedEffect);
                lemma_role_persists(a, c, variable_of(*right)->0, VariableRole::FixedEffect);
            }
        },
        Term::RandomEffect(re) => {
            lemma_role_persists(a, c, grouping_name(re.grouping), VariableRole::GroupingVariable);
            assert forall|j: int|
                0 <= j < re.terms@.len() && slope_variable(#[trigger] re.terms@[j]) is Some implies c.has_role_on(
                    slope_variable(re.terms@[j])->0,
                    VariableRole::RandomEffect,
                ) by {
                lemma_role_persists(
                    a,
                    c,
                    slope_variable(re.terms@[j])->0,
                    VariableRole::RandomEffect,
                );
            }
        },
        _ => {},
    }
}

} // verus!
