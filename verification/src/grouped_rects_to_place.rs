use crate::identifiers::duplicate;
use crate::identifiers::is_identifier;
use crate::identifiers::is_ordered;
use crate::identifiers::keys_in_order;
use crate::identifiers::lemma_keys_in_order;
use crate::identifiers::lemma_keys_of_ordered_map;
use crate::rect_to_insert::RectToInsert;
use std::collections::BTreeMap;
use vstd::prelude::*;
use vstd::std_specs::btree::increasing_seq;
use vstd::std_specs::iter::IteratorSpec;

verus! {

broadcast use vstd::std_specs::btree::group_btree_axioms;

/// A set of rectangles that must all be placed into the same bin.
#[derive(Debug, Hash, Eq, PartialEq, Ord, PartialOrd)]
pub enum Group<GroupId, RectToPlaceId> {
    /// The group of one rectangle that was pushed without a group: it is named after
    /// the rectangle, so that every rectangle is in some group.
    Ungrouped(RectToPlaceId),
    /// A group that the caller named.
    Grouped(GroupId),
}

/// The rectangles that are to be placed, and the groups they are in.
///
/// Groups are placed from the largest to the smallest, where the size of a group is
/// the sum of the sizes of its rectangles under the caller's heuristic.
#[derive(Debug)]
pub struct GroupedRectsToPlace<RectToPlaceId, GroupId = ()> {
    inbound_id_to_group_ids: BTreeMap<RectToPlaceId, Vec<Group<GroupId, RectToPlaceId>>>,
    ungrouped: BTreeMap<RectToPlaceId, Vec<RectToPlaceId>>,
    grouped: BTreeMap<GroupId, Vec<RectToPlaceId>>,
    rects: BTreeMap<RectToPlaceId, RectToInsert>,
}

/// What a [`GroupedRectsToPlace`] holds, as plain values.
#[verifier::reject_recursive_types(RectToPlaceId)]
#[verifier::reject_recursive_types(GroupId)]
pub struct GroupedRectsView<RectToPlaceId, GroupId> {
    /// The rectangle behind each identifier.
    pub rects: Map<RectToPlaceId, RectToInsert>,
    /// For each rectangle that was pushed without a group, the members of the group
    /// named after it.
    pub ungrouped: Map<RectToPlaceId, Seq<RectToPlaceId>>,
    /// The members of each group that the caller named, in the order they were pushed.
    pub grouped: Map<GroupId, Seq<RectToPlaceId>>,
    /// The groups that each rectangle was last pushed with.
    pub memberships: Map<RectToPlaceId, Seq<Group<GroupId, RectToPlaceId>>>,
}

/// The groups that a rectangle is pushed with, as a plain list.
pub open spec fn group_list<GroupId>(group_ids: &Option<Vec<GroupId>>) -> Option<Seq<GroupId>> {
    match group_ids {
        Some(ids) => Some(ids@),
        None => None,
    }
}

/// The members of the named groups after the rectangle `id` has joined each group of
/// `groups` in turn: it becomes the last member of a group that exists, and the only
/// member of a new one.
pub open spec fn joined<RectToPlaceId, GroupId>(
    grouped: Map<GroupId, Seq<RectToPlaceId>>,
    groups: Seq<GroupId>,
    id: RectToPlaceId,
) -> Map<GroupId, Seq<RectToPlaceId>>
    decreases groups.len(),
{
    if groups.len() == 0 {
        grouped
    } else {
        let before = joined(grouped, groups.drop_last(), id);
        let group = groups.last();
        if before.contains_key(group) {
            before.insert(group, before[group].push(id))
        } else {
            before.insert(group, seq![id])
        }
    }
}

impl<RectToPlaceId, GroupId> GroupedRectsView<RectToPlaceId, GroupId> {
    /// The state of a registry without rectangles.
    pub open spec fn empty() -> Self {
        GroupedRectsView {
            rects: Map::empty(),
            ungrouped: Map::empty(),
            grouped: Map::empty(),
            memberships: Map::empty(),
        }
    }

    /// The members of `group`, if there is such a group.
    pub open spec fn members(self, group: Group<GroupId, RectToPlaceId>) -> Option<
        Seq<RectToPlaceId>,
    > {
        match group {
            Group::Ungrouped(id) => if self.ungrouped.contains_key(id) {
                Some(self.ungrouped[id])
            } else {
                None
            },
            Group::Grouped(id) => if self.grouped.contains_key(id) {
                Some(self.grouped[id])
            } else {
                None
            },
        }
    }

    /// The state after `rect` was pushed under `id`: alone, or into the groups `groups`.
    pub open spec fn with_rect(
        self,
        id: RectToPlaceId,
        groups: Option<Seq<GroupId>>,
        rect: RectToInsert,
    ) -> Self {
        match groups {
            None => GroupedRectsView {
                rects: self.rects.insert(id, rect),
                ungrouped: self.ungrouped.insert(id, seq![id]),
                grouped: self.grouped,
                memberships: self.memberships.insert(id, seq![Group::Ungrouped(id)]),
            },
            Some(groups) => GroupedRectsView {
                rects: self.rects.insert(id, rect),
                ungrouped: self.ungrouped,
                grouped: joined(self.grouped, groups, id),
                memberships: self.memberships.insert(
                    id,
                    groups.map_values(|group: GroupId| Group::Grouped(group)),
                ),
            },
        }
    }

    /// `members` is the list of the members of some group.
    pub open spec fn has_group(self, members: Seq<RectToPlaceId>) -> bool {
        ||| exists|id: RectToPlaceId|
            self.ungrouped.contains_key(id) && #[trigger] self.ungrouped[id] == members
        ||| exists|id: GroupId|
            self.grouped.contains_key(id) && #[trigger] self.grouped[id] == members
    }

    /// Every member of every group is a rectangle that was pushed.
    pub open spec fn is_complete(self) -> bool {
        &&& forall|id: RectToPlaceId, i: int|
            self.ungrouped.contains_key(id) && 0 <= i < self.ungrouped[id].len()
                ==> self.rects.contains_key(#[trigger] self.ungrouped[id][i])
        &&& forall|id: GroupId, i: int|
            self.grouped.contains_key(id) && 0 <= i < self.grouped[id].len()
                ==> self.rects.contains_key(#[trigger] self.grouped[id][i])
    }

    /// Every rectangle is in a group: it was pushed with groups, each of which has it as
    /// a member, or it is the one member of the group that is named after it.
    pub open spec fn is_grouped(self) -> bool {
        &&& forall|id: RectToPlaceId| #[trigger]
            self.ungrouped.contains_key(id) ==> self.ungrouped[id] == seq![id]
        &&& forall|id: RectToPlaceId| #[trigger]
            self.rects.contains_key(id) ==> self.memberships.contains_key(id)
                && self.memberships[id].len() > 0
        &&& forall|id: RectToPlaceId, i: int|
            self.memberships.contains_key(id) && 0 <= i < self.memberships[id].len() ==> (
            match #[trigger] self.memberships[id][i] {
                Group::Ungrouped(name) => name == id && self.ungrouped.contains_key(id),
                Group::Grouped(name) => self.grouped.contains_key(name)
                    && self.grouped[name].contains(id),
            })
    }

    /// The groups, each as the list of its members, in the order in which an ordered
    /// map of the groups is walked: first the groups of single rectangles, by the
    /// rectangle's identifier, then the named groups, by their identifier.
    pub open spec fn groups_in_order(self) -> Seq<Seq<RectToPlaceId>> {
        keys_in_order(self.ungrouped).map_values(|id: RectToPlaceId| self.ungrouped[id])
            + keys_in_order(self.grouped).map_values(|id: GroupId| self.grouped[id])
    }
}

impl<RectToPlaceId, GroupId> View for GroupedRectsToPlace<RectToPlaceId, GroupId> {
    type V = GroupedRectsView<RectToPlaceId, GroupId>;

    closed spec fn view(&self) -> GroupedRectsView<RectToPlaceId, GroupId> {
        GroupedRectsView {
            rects: self.rects@,
            ungrouped: self.ungrouped@.map_values(|members: Vec<RectToPlaceId>| members@),
            grouped: self.grouped@.map_values(|members: Vec<RectToPlaceId>| members@),
            memberships: self.inbound_id_to_group_ids@.map_values(
                |groups: Vec<Group<GroupId, RectToPlaceId>>| groups@,
            ),
        }
    }
}

impl<RectToPlaceId, GroupId> GroupedRectsToPlace<RectToPlaceId, GroupId> where
    RectToPlaceId: Clone + Ord,
    GroupId: Clone + Ord,
 {
    /// A registry without rectangles.
    pub fn new() -> (registry: Self)
        ensures
            registry@ == GroupedRectsView::<RectToPlaceId, GroupId>::empty(),
            registry@.is_complete(),
            registry@.is_grouped(),
    {
        let registry = GroupedRectsToPlace {
            inbound_id_to_group_ids: BTreeMap::new(),
            ungrouped: BTreeMap::new(),
            grouped: BTreeMap::new(),
            rects: BTreeMap::new(),
        };
        assert(registry@.ungrouped =~= Map::<RectToPlaceId, Seq<RectToPlaceId>>::empty());
        assert(registry@.grouped =~= Map::<GroupId, Seq<RectToPlaceId>>::empty());
        assert(registry@.memberships =~= Map::<
            RectToPlaceId,
            Seq<Group<GroupId, RectToPlaceId>>,
        >::empty());
        registry
    }

    /// Pushes the rectangle `inbound` under the identifier `inbound_id`.
    ///
    /// With no group it becomes a group of its own, named after it. With a list of
    /// groups it joins each of them as the last member, and so must be placed into
    /// the same bin as the other members of each. The list must not be empty: a
    /// rectangle that is in no group of others is pushed with no list.
    pub fn push_rect(
        &mut self,
        inbound_id: RectToPlaceId,
        group_ids: Option<Vec<GroupId>>,
        inbound: RectToInsert,
    )
        requires
            is_identifier::<RectToPlaceId>(),
            is_identifier::<GroupId>(),
            !(group_ids matches Some(ids) && ids@.len() == 0),
        ensures
            final(self)@ == old(self)@.with_rect(inbound_id, group_list(&group_ids), inbound),
            old(self)@.is_complete() ==> final(self)@.is_complete(),
            old(self)@.is_grouped() ==> final(self)@.is_grouped(),
    {
        let ghost groups = group_list(&group_ids);
        proof {
            if old(self)@.is_grouped() {
                lemma_push_keeps_grouped(old(self)@, inbound_id, groups, inbound);
            }
        }
        self.rects.insert(duplicate(&inbound_id), inbound);
        match group_ids {
            None => {
                let mut members: Vec<RectToPlaceId> = Vec::new();
                members.push(duplicate(&inbound_id));
                self.ungrouped.insert(duplicate(&inbound_id), members);
                let mut groups: Vec<Group<GroupId, RectToPlaceId>> = Vec::new();
                groups.push(Group::Ungrouped(duplicate(&inbound_id)));
                self.inbound_id_to_group_ids.insert(inbound_id, groups);
                proof {
                    let expected = old(self)@.with_rect(inbound_id, None, inbound);
                    assert(self@.ungrouped =~= expected.ungrouped);
                    assert(self@.grouped =~= expected.grouped);
                    assert(self@.memberships =~= expected.memberships);
                }
            },
            Some(group_ids) => {
                let mut groups: Vec<Group<GroupId, RectToPlaceId>> = Vec::new();
                for i in 0..group_ids.len()
                    invariant
                        is_identifier::<GroupId>(),
                        groups@ == group_ids@.take(i as int).map_values(
                            |group: GroupId| Group::<GroupId, RectToPlaceId>::Grouped(group),
                        ),
                {
                    groups.push(Group::Grouped(duplicate(&group_ids[i])));
                    assert(groups@ =~= group_ids@.take(i + 1).map_values(
                        |group: GroupId| Group::<GroupId, RectToPlaceId>::Grouped(group),
                    ));
                }
                assert(group_ids@.take(group_ids@.len() as int) == group_ids@);
                self.inbound_id_to_group_ids.insert(duplicate(&inbound_id), groups);
                let ghost grouped_before = self@.grouped;
                proof {
                    assert(self@.grouped =~= old(self)@.grouped);
                    assert(self@.ungrouped =~= old(self)@.ungrouped);
                    if old(self)@.is_complete() {
                        assert forall|id: GroupId, i: int|
                            self@.grouped.contains_key(id) && 0 <= i < self@.grouped[id].len()
                            implies self@.rects.contains_key(#[trigger] self@.grouped[id][i]) by {
                            assert(old(self)@.rects.contains_key(old(self)@.grouped[id][i]));
                        }
                        assert forall|id: RectToPlaceId, i: int|
                            self@.ungrouped.contains_key(id) && 0 <= i < self@.ungrouped[id].len()
                            implies self@.rects.contains_key(#[trigger] self@.ungrouped[id][i]) by {
                            assert(old(self)@.rects.contains_key(old(self)@.ungrouped[id][i]));
                        }
                    }
                }
                for i in 0..group_ids.len()
                    invariant
                        is_identifier::<RectToPlaceId>(),
                        is_identifier::<GroupId>(),
                        self@.rects == old(self)@.rects.insert(inbound_id, inbound),
                        self@.ungrouped == old(self)@.ungrouped,
                        self@.memberships == old(self)@.memberships.insert(
                            inbound_id,
                            group_ids@.map_values(
                                |group: GroupId| Group::<GroupId, RectToPlaceId>::Grouped(group),
                            ),
                        ),
                        grouped_before == old(self)@.grouped,
                        self@.grouped == joined(grouped_before, group_ids@.take(i as int), inbound_id),
                        old(self)@.is_complete() ==> self@.is_complete(),
                {
                    let group_id = duplicate(&group_ids[i]);
                    let ghost before = self@.grouped;
                    let mut members = match self.grouped.remove(&group_id) {
                        Some(members) => members,
                        None => Vec::new(),
                    };
                    members.push(duplicate(&inbound_id));
                    self.grouped.insert(group_id, members);
                    proof {
                        assert(group_ids@.take(i + 1).drop_last() == group_ids@.take(i as int));
                        assert(self@.grouped =~= joined(
                            grouped_before,
                            group_ids@.take(i + 1),
                            inbound_id,
                        ));
                    }
                }
            },
        }
    }

    /// The rectangles that were pushed, by their identifiers.
    pub fn rects(&self) -> (rects: &BTreeMap<RectToPlaceId, RectToInsert>)
        ensures
            rects@ == self@.rects,
    {
        &self.rects
    }

    /// For each rectangle, the groups that it was last pushed with.
    pub fn inbound_id_to_group_ids(&self) -> (memberships: &BTreeMap<
        RectToPlaceId,
        Vec<Group<GroupId, RectToPlaceId>>,
    >)
        ensures
            memberships@.map_values(|groups: Vec<Group<GroupId, RectToPlaceId>>| groups@)
                == self@.memberships,
    {
        &self.inbound_id_to_group_ids
    }

    /// The members of `group`, in the order they were pushed, if there is such a group.
    pub fn group_id_to_inbound_ids(&self, group: &Group<GroupId, RectToPlaceId>) -> (members:
        Option<&Vec<RectToPlaceId>>)
        requires
            is_identifier::<RectToPlaceId>(),
            is_identifier::<GroupId>(),
        ensures
            match members {
                Some(members) => self@.members(*group) == Some(members@),
                None => self@.members(*group) is None,
            },
    {
        match group {
            Group::Ungrouped(id) => self.ungrouped.get(id),
            Group::Grouped(id) => self.grouped.get(id),
        }
    }

    /// The rectangle that was pushed under `id`, if there is one.
    pub fn rect(&self, id: &RectToPlaceId) -> (rect: Option<&RectToInsert>)
        requires
            is_identifier::<RectToPlaceId>(),
        ensures
            match rect {
                Some(rect) => self@.rects.contains_key(*id) && self@.rects[*id] == *rect,
                None => !self@.rects.contains_key(*id),
            },
    {
        self.rects.get(id)
    }

    /// The groups, each as the list of its members, in the order in which the registry
    /// is walked.
    pub fn member_lists(&self) -> (lists: Vec<&Vec<RectToPlaceId>>)
        requires
            is_identifier::<RectToPlaceId>(),
            is_identifier::<GroupId>(),
        ensures
            lists@.map_values(|members: &Vec<RectToPlaceId>| members@) == self@.groups_in_order(),
            forall|j: int| 0 <= j < lists@.len() ==> self@.has_group(#[trigger] lists@[j]@),
    {
        let mut lists: Vec<&Vec<RectToPlaceId>> = Vec::new();
        let singles = self.ungrouped.values();
        let ghost single_ids = choose|ids: Seq<RectToPlaceId>|
            {
                &&& increasing_seq(ids)
                &&& ids.to_set() == self.ungrouped@.dom()
                &&& ids.no_duplicates()
                &&& singles.remaining() == ids.map(|i: int, id: RectToPlaceId| &self.ungrouped@[id])
            };
        for members in it: singles
            invariant
                lists@.len() == it.index(),
                forall|j: int| 0 <= j < lists@.len() ==> lists@[j] == it.seq()[j],
        {
            lists.push(members);
        }
        let ghost single_count = lists@.len();
        let named = self.grouped.values();
        let ghost named_ids = choose|ids: Seq<GroupId>|
            {
                &&& increasing_seq(ids)
                &&& ids.to_set() == self.grouped@.dom()
                &&& ids.no_duplicates()
                &&& named.remaining() == ids.map(|i: int, id: GroupId| &self.grouped@[id])
            };
        for members in it: named
            invariant
                lists@.len() == single_count + it.index(),
                single_count == singles.remaining().len(),
                forall|j: int| 0 <= j < single_count ==> lists@[j] == singles.remaining()[j],
                forall|j: int|
                    single_count <= j < lists@.len() ==> lists@[j] == it.seq()[j - single_count],
        {
            lists.push(members);
        }
        proof {
            assert(self@.ungrouped.dom() =~= self.ungrouped@.dom());
            assert(self@.grouped.dom() =~= self.grouped@.dom());
            lemma_keys_in_order(self@.ungrouped, single_ids);
            lemma_keys_in_order(self@.grouped, named_ids);
            assert(lists@.map_values(|members: &Vec<RectToPlaceId>| members@)
                =~= self@.groups_in_order());
            assert forall|j: int| 0 <= j < lists@.len() implies self@.has_group(
                #[trigger] lists@[j]@,
            ) by {
                if j < single_count {
                    let id = single_ids[j];
                    assert(single_ids.contains(id));
                    assert(self.ungrouped@.dom().contains(id));
                    assert(self@.ungrouped[id] == lists@[j]@);
                } else {
                    let id = named_ids[j - single_count];
                    assert(named_ids.contains(id));
                    assert(self.grouped@.dom().contains(id));
                    assert(self@.grouped[id] == lists@[j]@);
                }
            }
        }
        lists
    }

    /// The groups in the order in which the registry is walked are the groups of the
    /// registry: none is left out, and nothing else is walked.
    pub proof fn lemma_groups_in_order(&self)
        requires
            is_ordered::<RectToPlaceId>(),
            is_ordered::<GroupId>(),
        ensures
            forall|members: Seq<RectToPlaceId>|
                self@.has_group(members) <==> #[trigger] self@.groups_in_order().contains(
                    members,
                ),
    {
        lemma_keys_of_ordered_map(&self.ungrouped);
        lemma_keys_of_ordered_map(&self.grouped);
        let single_ids = keys_in_order(self.ungrouped@);
        let named_ids = keys_in_order(self.grouped@);
        assert(self@.ungrouped.dom() =~= self.ungrouped@.dom());
        assert(self@.grouped.dom() =~= self.grouped@.dom());
        lemma_keys_in_order(self@.ungrouped, single_ids);
        lemma_keys_in_order(self@.grouped, named_ids);
        let walked = self@.groups_in_order();
        assert forall|members: Seq<RectToPlaceId>| self@.has_group(members) implies walked.contains(
            members,
        ) by {
            if exists|id: RectToPlaceId|
                self@.ungrouped.contains_key(id) && #[trigger] self@.ungrouped[id] == members {
                let id = choose|id: RectToPlaceId|
                    self@.ungrouped.contains_key(id) && #[trigger] self@.ungrouped[id] == members;
                assert(single_ids.to_set().contains(id));
                let at = choose|at: int| 0 <= at < single_ids.len() && single_ids[at] == id;
                assert(walked[at] == members);
            } else {
                let id = choose|id: GroupId|
                    self@.grouped.contains_key(id) && #[trigger] self@.grouped[id] == members;
                assert(named_ids.to_set().contains(id));
                let at = choose|at: int| 0 <= at < named_ids.len() && named_ids[at] == id;
                assert(walked[single_ids.len() + at] == members);
            }
        }
        assert forall|members: Seq<RectToPlaceId>| #[trigger]
            walked.contains(members) implies self@.has_group(members) by {
            let at = choose|at: int| 0 <= at < walked.len() && walked[at] == members;
            if at < single_ids.len() {
                let id = single_ids[at];
                assert(single_ids.contains(id));
                assert(self@.ungrouped.contains_key(id));
                assert(self@.ungrouped[id] == members);
            } else {
                let id = named_ids[at - single_ids.len()];
                assert(named_ids.contains(id));
                assert(self@.grouped.contains_key(id));
                assert(self@.grouped[id] == members);
            }
        }
    }
}

/// Joining groups takes no member from a group: every group is still there, and
/// begins with the members it had.
pub proof fn lemma_joined_keeps_members<RectToPlaceId, GroupId>(
    grouped: Map<GroupId, Seq<RectToPlaceId>>,
    groups: Seq<GroupId>,
    id: RectToPlaceId,
    group: GroupId,
)
    requires
        grouped.contains_key(group),
    ensures
        joined(grouped, groups, id).contains_key(group),
        grouped[group].is_prefix_of(joined(grouped, groups, id)[group]),
    decreases groups.len(),
{
    if groups.len() > 0 {
        lemma_joined_keeps_members(grouped, groups.drop_last(), id, group);
    }
}

/// A rectangle that has joined groups is a member of each of them.
pub proof fn lemma_joined_has_member<RectToPlaceId, GroupId>(
    grouped: Map<GroupId, Seq<RectToPlaceId>>,
    groups: Seq<GroupId>,
    id: RectToPlaceId,
    i: int,
)
    requires
        0 <= i < groups.len(),
    ensures
        joined(grouped, groups, id).contains_key(groups[i]),
        joined(grouped, groups, id)[groups[i]].contains(id),
    decreases groups.len(),
{
    let before = joined(grouped, groups.drop_last(), id);
    let last = groups.last();
    let after = joined(grouped, groups, id);
    if before.contains_key(last) {
        assert(after[last] == before[last].push(id));
        assert(after[last][before[last].len() as int] == id);
    } else {
        assert(after[last] == seq![id]);
        assert(after[last][0] == id);
    }
    if i < groups.len() - 1 {
        lemma_joined_has_member(grouped, groups.drop_last(), id, i);
        if groups[i] != last {
            assert(after[groups[i]] == before[groups[i]]);
        } else {
            assert(after[last].contains(id));
        }
    }
}

/// Pushing a rectangle, alone or with a list of groups that is not empty, leaves
/// every rectangle in a group.
pub proof fn lemma_push_keeps_grouped<RectToPlaceId, GroupId>(
    registry: GroupedRectsView<RectToPlaceId, GroupId>,
    id: RectToPlaceId,
    groups: Option<Seq<GroupId>>,
    rect: RectToInsert,
)
    requires
        registry.is_grouped(),
        groups matches Some(ids) ==> ids.len() > 0,
    ensures
        registry.with_rect(id, groups, rect).is_grouped(),
{
    let after = registry.with_rect(id, groups, rect);
    assert forall|other: RectToPlaceId, i: int|
        after.memberships.contains_key(other) && 0 <= i < after.memberships[other].len() implies (
    match #[trigger] after.memberships[other][i] {
        Group::Ungrouped(name) => name == other && after.ungrouped.contains_key(other),
        Group::Grouped(name) => after.grouped.contains_key(name) && after.grouped[name].contains(
            other,
        ),
    }) by {
        match groups {
            None => {
                if other != id {
                    assert(after.memberships[other] == registry.memberships[other]);
                    let group = registry.memberships[other][i];
                    assert(registry.memberships.contains_key(other));
                }
            },
            Some(ids) => {
                if other != id {
                    assert(after.memberships[other] == registry.memberships[other]);
                    match registry.memberships[other][i] {
                        Group::Ungrouped(name) => {},
                        Group::Grouped(name) => {
                            lemma_joined_keeps_members(registry.grouped, ids, id, name);
                            let was = registry.grouped[name];
                            let now = after.grouped[name];
                            let at = choose|at: int| 0 <= at < was.len() && was[at] == other;
                            assert(now[at] == other);
                        },
                    }
                } else {
                    lemma_joined_has_member(registry.grouped, ids, id, i);
                }
            },
        }
    }
}

} // verus!
