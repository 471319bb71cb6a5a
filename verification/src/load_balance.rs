//! Groups of services that share the load.

use vstd::prelude::*;

use crate::name_map::NameMap;
use crate::text;

verus! {

/// What a group holds.
pub struct GroupView {
    pub name: Seq<char>,
    pub key: Option<Seq<char>>,
    /// The services, in the order in which they came.
    pub members: Seq<Seq<char>>,
    /// How often a member was asked for in turn, modulo the range of `usize`.
    pub turns: usize,
}

/// The characters of a list of names.
pub open spec fn name_list(v: Seq<String>) -> Seq<Seq<char>> {
    v.map_values(|s: String| s@)
}

/// A list with a name added, unless it is there.
pub open spec fn list_with(list: Seq<Seq<char>>, name: Seq<char>) -> Seq<Seq<char>> {
    if list.contains(name) {
        list
    } else {
        list.push(name)
    }
}

/// A list without a name.
pub open spec fn list_without(list: Seq<Seq<char>>, name: Seq<char>) -> Seq<Seq<char>>
    decreases list.len(),
{
    if list.len() == 0 {
        list
    } else if list.last() == name {
        list_without(list.drop_last(), name)
    } else {
        list_without(list.drop_last(), name).push(list.last())
    }
}

/// `rand::random` for an index. Any number may come out.
#[verifier::external_body]
fn random_index() -> usize {
    rand::random::<usize>()
}

/// A group of services.
#[derive(Debug)]
pub struct LoadBalanceGroup {
    pub name: String,
    pub group_key: Option<String>,
    members: Vec<String>,
    turns: usize,
}

impl View for LoadBalanceGroup {
    type V = GroupView;

    closed spec fn view(&self) -> GroupView {
        GroupView {
            name: self.name@,
            key: text::opt_text(self.group_key),
            members: name_list(self.members@),
            turns: self.turns,
        }
    }
}

impl LoadBalanceGroup {
    /// Makes a group without members.
    pub fn new(name: String, group_key: Option<String>) -> (r: Self)
        ensures
            r@ == (GroupView {
                name: name@,
                key: text::opt_text(group_key),
                members: Seq::empty(),
                turns: 0,
            }),
    {
        let r = LoadBalanceGroup { name, group_key, members: Vec::new(), turns: 0 };
        assert(r@.members == Seq::<Seq<char>>::empty());
        r
    }

    /// Adds a service, unless it is there.
    pub fn add_member(&mut self, service_name: String)
        ensures
            final(self)@ == (GroupView {
                members: list_with(old(self)@.members, service_name@),
                ..old(self)@
            }),
            old(self)@.members.no_duplicates() ==> final(self)@.members.no_duplicates(),
    {
        proof {
            if self@.members.no_duplicates() {
                lemma_list_with(self@.members, service_name@);
            }
        }
        let mut i: usize = 0;
        while i < self.members.len()
            invariant
                *self == *old(self),
                i <= self.members@.len(),
                forall|j: int| 0 <= j < i ==> (#[trigger] self.members@[j])@ != service_name@,
            decreases self.members@.len() - i,
        {
            if text::str_eq(self.members[i].as_str(), service_name.as_str()) {
                assert(self@.members[i as int] == service_name@);
                return ;
            }
            i = i + 1;
        }
        assert(!self@.members.contains(service_name@)) by {
            assert forall|j: int| 0 <= j < self@.members.len() implies self@.members[j]
                != service_name@ by {
                assert(self@.members[j] == self.members@[j]@);
            }
        }
        self.members.push(service_name);
        assert(self@.members == old(self)@.members.push(service_name@));
    }

    /// Takes a service out.
    pub fn remove_member(&mut self, service_name: &str)
        ensures
            final(self)@ == (GroupView {
                members: list_without(old(self)@.members, service_name@),
                ..old(self)@
            }),
            old(self)@.members.no_duplicates() ==> final(self)@.members.no_duplicates(),
    {
        proof {
            lemma_list_without(self@.members, service_name@);
        }
        let ghost before = self.members@;
        let mut kept: Vec<String> = Vec::new();
        let mut rest: Vec<String> = Vec::new();
        std::mem::swap(&mut rest, &mut self.members);
        assert(name_list(before.take(0)) == Seq::<Seq<char>>::empty());
        for m in it: rest
            invariant
                it.seq() == before,
                name_list(kept@) == list_without(name_list(before.take(it.index())), service_name@),
        {
            let ghost part = name_list(before.take(it.index()));
            let ghost next = name_list(before.take(it.index() + 1));
            let ghost was = name_list(kept@);
            proof {
                assert(next.drop_last() == part);
                assert(next.last() == m@);
            }
            if !text::str_eq(m.as_str(), service_name) {
                let ghost name = m@;
                kept.push(m);
                assert(name_list(kept@) == was.push(name));
            }
        }
        assert(before.take(before.len() as int) == before);
        self.members = kept;
    }

    /// Whether the group has no members.
    pub fn is_empty(&self) -> (r: bool)
        ensures
            r == (self@.members.len() == 0),
    {
        self.members.len() == 0
    }

    /// The number of members.
    pub fn member_count(&self) -> (r: usize)
        ensures
            r == self@.members.len(),
    {
        self.members.len()
    }

    /// The member that a number picks, whatever the number.
    pub fn member_at(&self, n: usize) -> (r: Option<&str>)
        ensures
            match r {
                Some(m) => self@.members.len() > 0 && m@ == self@.members[n as int
                    % self@.members.len() as int],
                None => self@.members.len() == 0,
            },
    {
        if self.members.len() == 0 {
            return None;
        }
        let idx = n % self.members.len();
        assert(self@.members[idx as int] == self.members@[idx as int]@);
        Some(self.members[idx].as_str())
    }

    /// The member whose turn it is.
    pub fn next_member(&mut self) -> (r: Option<&str>)
        ensures
            match r {
                Some(m) => old(self)@.members.len() > 0 && m@ == old(self)@.members[old(
                    self,
                )@.turns as int % old(self)@.members.len() as int],
                None => old(self)@.members.len() == 0,
            },
            final(self)@ == after_turn(old(self)@),
    {
        if self.members.len() == 0 {
            return None;
        }
        let n = self.turns;
        self.turns = self.turns.wrapping_add(1);
        self.member_at(n)
    }

    /// Some member, by chance.
    pub fn random_member(&self) -> (r: Option<&str>)
        ensures
            match r {
                Some(m) => self@.members.contains(m@),
                None => self@.members.len() == 0,
            },
    {
        let n = random_index();
        self.member_at(n)
    }

    /// Whether a key is that of the group.
    pub fn validate_key(&self, key: Option<&str>) -> (r: bool)
        ensures
            r == (self@.key == text::opt_str(key)),
    {
        match (&self.group_key, key) {
            (None, None) => true,
            (Some(expected), Some(provided)) => text::str_eq(expected.as_str(), provided),
            _ => false,
        }
    }
}

/// A group after one of its members was asked for in turn.
pub open spec fn after_turn(g: GroupView) -> GroupView {
    if g.members.len() == 0 {
        g
    } else {
        GroupView {
            turns: if g.turns == usize::MAX {
                0
            } else {
                (g.turns + 1) as usize
            },
            ..g
        }
    }
}

/// A group after `n` turns.
pub open spec fn after_turns(g: GroupView, n: nat) -> GroupView
    decreases n,
{
    if n == 0 {
        g
    } else {
        after_turn(after_turns(g, (n - 1) as nat))
    }
}

proof fn lemma_turns(g: GroupView, n: nat)
    requires
        g.members.len() > 0,
        g.turns + n <= usize::MAX,
    ensures
        after_turns(g, n) == (GroupView { turns: (g.turns + n) as usize, ..g }),
    decreases n,
{
    if n > 0 {
        lemma_turns(g, (n - 1) as nat);
    }
}

/// As many turns as there are members reach each member. (The count of turns starts over
/// behind the range of `usize`: where that falls into the turns, one may be left out.)
pub proof fn turns_reach_each_member(g: GroupView, m: int) -> (n: nat)
    requires
        0 <= m < g.members.len(),
        g.turns + g.members.len() <= usize::MAX,
    ensures
        n < g.members.len(),
        after_turns(g, n).members[after_turns(g, n).turns as int % g.members.len() as int]
            == g.members[m],
{
    let len = g.members.len() as int;
    let at = g.turns as int % len;
    let n = if m >= at {
        (m - at) as nat
    } else {
        (m - at + len) as nat
    };
    lemma_turns(g, n);
    assert((g.turns + n) % len == m) by (nonlinear_arith)
        requires
            len > 0,
            0 <= m < len,
            at == g.turns as int % len,
            n == (if m >= at {
                m - at
            } else {
                m - at + len
            }),
    {
        let q = g.turns as int / len;
        assert(g.turns as int == q * len + at);
        if m >= at {
            assert(g.turns + n == q * len + m);
            vstd::arithmetic::div_mod::lemma_fundamental_div_mod_converse(
                (g.turns + n) as int,
                len,
                q,
                m,
            );
        } else {
            assert(g.turns + n == (q + 1) * len + m);
            vstd::arithmetic::div_mod::lemma_fundamental_div_mod_converse(
                (g.turns + n) as int,
                len,
                q + 1,
                m,
            );
        }
    }
    n
}

// ---------- the manager ----------

/// All groups, by name.
#[derive(Debug)]
pub struct LoadBalanceManager {
    groups: NameMap<LoadBalanceGroup>,
}

impl View for LoadBalanceManager {
    type V = Map<Seq<char>, GroupView>;

    closed spec fn view(&self) -> Map<Seq<char>, GroupView> {
        self.groups@.map_values(|g: LoadBalanceGroup| g@)
    }
}

/// Whether every group has the name that it goes by, at least one member, and none twice.
pub open spec fn groups_wf(groups: Map<Seq<char>, GroupView>) -> bool {
    forall|n: Seq<char>| #[trigger]
        groups.dom().contains(n) ==> groups[n].name == n && groups[n].members.len() > 0
            && groups[n].members.no_duplicates()
}

/// The group that a service is registered in: the one that is there, or a new one.
pub open spec fn group_for(
    groups: Map<Seq<char>, GroupView>,
    group: Seq<char>,
    key: Option<Seq<char>>,
) -> GroupView {
    if groups.dom().contains(group) {
        groups[group]
    } else {
        GroupView { name: group, key, members: Seq::empty(), turns: 0 }
    }
}

/// Whether a service may be registered: a group that is there must have the same key.
pub open spec fn may_register(
    groups: Map<Seq<char>, GroupView>,
    group: Seq<char>,
    key: Option<Seq<char>>,
) -> bool {
    group_for(groups, group, key).key == key
}

/// The groups after a service was registered.
pub open spec fn registered(
    groups: Map<Seq<char>, GroupView>,
    group: Seq<char>,
    key: Option<Seq<char>>,
    service: Seq<char>,
) -> Map<Seq<char>, GroupView> {
    let g = group_for(groups, group, key);
    groups.insert(group, GroupView { members: list_with(g.members, service), ..g })
}

/// The groups after a service was taken out of one. A group without members goes.
pub open spec fn unregistered(
    groups: Map<Seq<char>, GroupView>,
    group: Seq<char>,
    service: Seq<char>,
) -> Map<Seq<char>, GroupView> {
    if !groups.dom().contains(group) {
        groups
    } else {
        let members = list_without(groups[group].members, service);
        if members.len() == 0 {
            groups.remove(group)
        } else {
            groups.insert(group, GroupView { members, ..groups[group] })
        }
    }
}

impl LoadBalanceManager {
    /// Makes a manager without groups.
    pub fn new() -> (r: Self)
        ensures
            r@ == Map::<Seq<char>, GroupView>::empty(),
            groups_wf(r@),
    {
        let r = LoadBalanceManager { groups: NameMap::new() };
        assert(r@ =~= Map::<Seq<char>, GroupView>::empty());
        r
    }

    /// Registers a service in a group. The first one decides on the key of the group.
    pub fn register(
        &mut self,
        group_name: &str,
        group_key: Option<&str>,
        service_name: &str,
    ) -> (r: Result<(), String>)
        ensures
            match r {
                Ok(_) => may_register(old(self)@, group_name@, text::opt_str(group_key)) && final(self)@
                    == registered(old(self)@, group_name@, text::opt_str(group_key), service_name@),
                Err(e) => !may_register(old(self)@, group_name@, text::opt_str(group_key)) && final(self)@
                    == old(self)@ && e@ == "Group key mismatch for group '"@ + group_name@ + "'"@,
            },
            groups_wf(old(self)@) ==> groups_wf(final(self)@),
    {
        let ghost before = self.groups@;
        proof {
            if groups_wf(self@) {
                register_keeps_groups_wf(self@, group_name@, text::opt_str(group_key), service_name@);
            }
        }
        if let Some(group) = self.groups.get_mut(group_name) {
            if !group.validate_key(group_key) {
                let mut e = "Group key mismatch for group '".to_string();
                e.append(group_name);
                e.append("'");
                assert(self@ =~= old(self)@);
                return Err(e);
            }
            group.add_member(service_name.to_string());
            assert(self@ =~= registered(
                old(self)@,
                group_name@,
                text::opt_str(group_key),
                service_name@,
            ));
        } else {
            let key = match group_key {
                Some(k) => Some(k.to_string()),
                None => None,
            };
            let mut group = LoadBalanceGroup::new(group_name.to_string(), key);
            group.add_member(service_name.to_string());
            assert(self.groups@ =~= before);
            self.groups.insert(group_name.to_string(), group);
            assert(self@ =~= registered(
                old(self)@,
                group_name@,
                text::opt_str(group_key),
                service_name@,
            ));
        }
        Ok(())
    }

    /// Takes a service out of a group.
    pub fn unregister(&mut self, group_name: &str, service_name: &str)
        ensures
            final(self)@ == unregistered(old(self)@, group_name@, service_name@),
            groups_wf(old(self)@) ==> groups_wf(final(self)@),
    {
        let mut gone = false;
        if let Some(group) = self.groups.get_mut(group_name) {
            group.remove_member(service_name);
            gone = group.is_empty();
        }
        if gone {
            self.groups.remove(group_name);
        }
        assert(self@ =~= unregistered(old(self)@, group_name@, service_name@));
        proof {
            if groups_wf(old(self)@) {
                unregister_keeps_groups_wf(old(self)@, group_name@, service_name@);
            }
        }
    }

    /// The service of a group whose turn it is.
    pub fn next_service(&mut self, group_name: &str) -> (r: Option<&str>)
        ensures
            match r {
                Some(m) => old(self)@.dom().contains(group_name@) && ({
                    let g = old(self)@[group_name@];
                    g.members.len() > 0 && m@ == g.members[g.turns as int % g.members.len() as int]
                }),
                None => old(self)@.dom().contains(group_name@) ==> old(
                    self,
                )@[group_name@].members.len() == 0,
            },
            final(self)@ == (if old(self)@.dom().contains(group_name@) {
                old(self)@.insert(group_name@, after_turn(old(self)@[group_name@]))
            } else {
                old(self)@
            }),
            groups_wf(old(self)@) ==> groups_wf(final(self)@),
    {
        match self.groups.get_mut(group_name) {
            Some(group) => group.next_member(),
            None => None,
        }
    }

    /// Some service of a group, by chance.
    pub fn random_service(&self, group_name: &str) -> (r: Option<&str>)
        ensures
            match r {
                Some(m) => self@.dom().contains(group_name@) && self@[group_name@].members.contains(
                    m@,
                ),
                None => self@.dom().contains(group_name@) ==> self@[group_name@].members.len() == 0,
            },
    {
        match self.groups.get(group_name) {
            Some(group) => group.random_member(),
            None => None,
        }
    }

    /// A group, by its name.
    pub fn get_group(&self, group_name: &str) -> (r: Option<&LoadBalanceGroup>)
        ensures
            match r {
                Some(g) => self@.dom().contains(group_name@) && g@ == self@[group_name@],
                None => !self@.dom().contains(group_name@),
            },
    {
        self.groups.get(group_name)
    }

    /// All groups.
    pub fn groups(&self) -> (r: &NameMap<LoadBalanceGroup>)
        ensures
            r@.map_values(|g: LoadBalanceGroup| g@) == self@,
    {
        &self.groups
    }
}

impl Default for LoadBalanceManager {
    fn default() -> (r: Self)
        ensures
            r@ == Map::<Seq<char>, GroupView>::empty(),
            groups_wf(r@),
    {
        LoadBalanceManager::new()
    }
}

// ---------- what follows ----------

proof fn lemma_list_without_absent(list: Seq<Seq<char>>, name: Seq<char>)
    requires
        !list.contains(name),
    ensures
        list_without(list, name) == list,
    decreases list.len(),
{
    if list.len() > 0 {
        let init = list.drop_last();
        assert(list[list.len() - 1] != name);
        assert forall|i: int| 0 <= i < init.len() implies init[i] != name by {
            assert(list[i] != name);
        }
        lemma_list_without_absent(init, name);
        assert(init.push(list.last()) == list);
    }
}

proof fn lemma_list_without(list: Seq<Seq<char>>, name: Seq<char>)
    ensures
        !list_without(list, name).contains(name),
        forall|m: Seq<char>| #[trigger]
            list_without(list, name).contains(m) ==> list.contains(m),
        list.no_duplicates() ==> list_without(list, name).no_duplicates(),
    decreases list.len(),
{
    if list.len() > 0 {
        let init = list.drop_last();
        let last = list.last();
        let rest = list_without(init, name);
        let after = list_without(list, name);
        lemma_list_without(init, name);
        assert forall|m: Seq<char>| #[trigger] after.contains(m) implies list.contains(m) && m
            != name by {
            let i = choose|i: int| 0 <= i < after.len() && after[i] == m;
            if i < rest.len() {
                assert(rest[i] == m);
                assert(rest.contains(m));
                let j = choose|j: int| 0 <= j < init.len() && init[j] == m;
                assert(list[j] == m);
            } else {
                assert(list[list.len() - 1] == m);
            }
        }
        if list.no_duplicates() {
            assert(init.no_duplicates()) by {
                assert forall|i: int, j: int|
                    0 <= i < init.len() && 0 <= j < init.len() && i != j implies init[i] != init[j] by {
                    assert(list[i] != list[j]);
                }
            }
            assert forall|i: int, j: int|
                0 <= i < after.len() && 0 <= j < after.len() && i != j implies after[i] != after[j] by {
                if i < rest.len() && j < rest.len() {
                    assert(rest[i] != rest[j]);
                } else {
                    let k = if i < rest.len() {
                        i
                    } else {
                        j
                    };
                    assert(rest.contains(rest[k]));
                    let l = choose|l: int| 0 <= l < init.len() && init[l] == rest[k];
                    assert(list[l] != list[list.len() - 1]);
                }
            }
        }
    }
}

proof fn lemma_list_with(list: Seq<Seq<char>>, name: Seq<char>)
    requires
        list.no_duplicates(),
    ensures
        list_with(list, name).no_duplicates(),
        list_with(list, name).len() > 0,
{
    if list.contains(name) {
        assert(list.len() > 0);
    } else {
        let after = list.push(name);
        assert forall|i: int, j: int|
            0 <= i < after.len() && 0 <= j < after.len() && i != j implies after[i] != after[j] by {
            if i < list.len() {
                assert(list.contains(list[i]));
            }
            if j < list.len() {
                assert(list.contains(list[j]));
            }
        }
    }
}

/// Every group keeps its name, has a member and has none twice, whatever is registered.
pub proof fn register_keeps_groups_wf(
    groups: Map<Seq<char>, GroupView>,
    group: Seq<char>,
    key: Option<Seq<char>>,
    service: Seq<char>,
)
    requires
        groups_wf(groups),
    ensures
        groups_wf(registered(groups, group, key, service)),
{
    let g = group_for(groups, group, key);
    let after = registered(groups, group, key, service);
    lemma_list_with(g.members, service);
    assert forall|n: Seq<char>| #[trigger] after.dom().contains(n) implies after[n].name == n
        && after[n].members.len() > 0 && after[n].members.no_duplicates() by {
        if n != group {
            assert(groups.dom().contains(n));
        }
    }
}

/// The same holds of whatever is taken out.
pub proof fn unregister_keeps_groups_wf(
    groups: Map<Seq<char>, GroupView>,
    group: Seq<char>,
    service: Seq<char>,
)
    requires
        groups_wf(groups),
    ensures
        groups_wf(unregistered(groups, group, service)),
{
    let after = unregistered(groups, group, service);
    lemma_list_without(groups[group].members, service);
    assert forall|n: Seq<char>| #[trigger] after.dom().contains(n) implies after[n].name == n
        && after[n].members.len() > 0 && after[n].members.no_duplicates() by {
        assert(groups.dom().contains(n));
    }
}

/// A service that was taken out of a group is not chosen there any more.
pub proof fn unregistered_service_is_gone(
    groups: Map<Seq<char>, GroupView>,
    group: Seq<char>,
    service: Seq<char>,
)
    ensures
        unregistered(groups, group, service).dom().contains(group) ==> !unregistered(
            groups,
            group,
            service,
        )[group].members.contains(service),
{
    lemma_list_without(groups[group].members, service);
}

/// Taking out a service that was new to its group gives back what was there before.
pub proof fn unregister_undoes_register(
    groups: Map<Seq<char>, GroupView>,
    group: Seq<char>,
    key: Option<Seq<char>>,
    service: Seq<char>,
)
    requires
        groups_wf(groups),
        !group_for(groups, group, key).members.contains(service),
    ensures
        unregistered(registered(groups, group, key, service), group, service) == groups,
{
    let g = group_for(groups, group, key);
    let more = g.members.push(service);
    assert(more.drop_last() == g.members);
    assert(more.last() == service);
    lemma_list_without_absent(g.members, service);
    assert(list_without(more, service) == g.members);
    let back = unregistered(registered(groups, group, key, service), group, service);
    if groups.dom().contains(group) {
        assert(groups[group].members.len() > 0);
    }
    assert(back =~= groups);
}

proof fn lemma_without_is_filtered(list: Seq<Seq<char>>, name: Seq<char>)
    ensures
        list_without(list, name) == list.filter(|m: Seq<char>| m != name),
    decreases list.len(),
{
    reveal(Seq::filter);
    if list.len() > 0 {
        lemma_without_is_filtered(list.drop_last(), name);
    }
}

/// A service that is registered is a member of its group, behind those that were there. Members
/// do not come twice, no other service comes in, and the other groups stay as they are.
pub proof fn registered_service_is_a_member(
    groups: Map<Seq<char>, GroupView>,
    group: Seq<char>,
    key: Option<Seq<char>>,
    service: Seq<char>,
    other: Seq<char>,
)
    requires
        other != group,
    ensures
        ({
            let after = registered(groups, group, key, service);
            let g = after[group];
            &&& after.dom() == groups.dom().insert(group)
            &&& after[other] == groups[other]
            &&& g.members.contains(service)
            &&& groups.dom().contains(group) ==> {
                let was = groups[group];
                &&& g.name == was.name
                &&& g.key == was.key
                &&& g.turns == was.turns
                &&& was.members.is_prefix_of(g.members)
                &&& was.members.contains(service) ==> g.members == was.members
                &&& !was.members.contains(service) ==> g.members.len() == was.members.len() + 1
                    && g.members.last() == service
            }
            &&& !groups.dom().contains(group) ==> g.name == group && g.key == key && g.members
                == seq![service] && g.turns == 0
        }),
{
    let was = group_for(groups, group, key);
    let after = registered(groups, group, key, service);
    assert(after.dom() =~= groups.dom().insert(group));
    if !was.members.contains(service) {
        assert(was.members.push(service).last() == service);
        assert(was.members.push(service)[was.members.len() as int] == service);
    }
}

/// A group is open to its own key alone. Where there is no group yet, every key will do.
pub proof fn groups_are_open_to_their_key(
    groups: Map<Seq<char>, GroupView>,
    group: Seq<char>,
    key: Option<Seq<char>>,
    service: Seq<char>,
    next: Option<Seq<char>>,
)
    ensures
        !groups.dom().contains(group) ==> may_register(groups, group, key),
        groups.dom().contains(group) ==> (may_register(groups, group, key) <==> groups[group].key
            == key),
        may_register(groups, group, key) ==> (may_register(
            registered(groups, group, key, service),
            group,
            next,
        ) <==> next == key),
{
}

/// Taking a service out leaves the other members of its group, in their order, and all other
/// groups. The group goes with its last member.
pub proof fn unregistering_keeps_the_others(
    groups: Map<Seq<char>, GroupView>,
    group: Seq<char>,
    service: Seq<char>,
    other: Seq<char>,
    member: Seq<char>,
)
    requires
        other != group,
    ensures
        ({
            let after = unregistered(groups, group, service);
            &&& after.dom().contains(other) == groups.dom().contains(other)
            &&& groups.dom().contains(other) ==> after[other] == groups[other]
            &&& groups.dom().contains(group) && groups[group].members.contains(member) && member
                != service ==> after.dom().contains(group) && after[group].members.contains(member)
            &&& after.dom().contains(group) ==> groups.dom().contains(group) && after[group] == (
            GroupView {
                members: groups[group].members.filter(|m: Seq<char>| m != service),
                ..groups[group]
            })
            &&& groups.dom().contains(group) && (forall|i: int|
                0 <= i < groups[group].members.len() ==> #[trigger] groups[group].members[i]
                    == service) ==> !after.dom().contains(group)
        }),
{
    let list = groups[group].members;
    let kept = list_without(list, service);
    lemma_without_is_filtered(list, service);
    let keep = |m: Seq<char>| m != service;
    broadcast use vstd::seq_lib::group_filter_ensures;

    if list.contains(member) && member != service {
        let i = choose|i: int| 0 <= i < list.len() && list[i] == member;
        list.lemma_filter_contains(keep, i);
        assert(kept.contains(member));
    }
    if forall|i: int| 0 <= i < list.len() ==> #[trigger] list[i] == service {
        if kept.len() > 0 {
            lemma_list_without(list, service);
            assert(kept.contains(kept[0]));
            let j = choose|j: int| 0 <= j < list.len() && list[j] == kept[0];
            assert(list[j] == service);
        }
    }
}

/// The members of a group take turns, one behind the other. (The count of turns starts over
/// behind the range of `usize`.)
pub proof fn members_take_turns(g: GroupView)
    requires
        g.members.len() > 0,
        g.turns < usize::MAX,
    ensures
        ({
            let len = g.members.len() as int;
            let at = g.turns as int % len;
            let next = after_turn(g);
            &&& next == (GroupView { turns: next.turns, ..g })
            &&& next.turns as int % len == (if at + 1 < len {
                at + 1
            } else {
                0
            })
        }),
{
    let len = g.members.len() as int;
    let at = g.turns as int % len;
    let q = g.turns as int / len;
    assert(g.turns as int == q * len + at && 0 <= at < len) by (nonlinear_arith)
        requires
            len > 0,
            at == g.turns as int % len,
            q == g.turns as int / len,
    ;
    if at + 1 < len {
        vstd::arithmetic::div_mod::lemma_fundamental_div_mod_converse(
            g.turns + 1,
            len,
            q,
            at + 1,
        );
    } else {
        assert(g.turns + 1 == (q + 1) * len + 0) by (nonlinear_arith)
            requires
                g.turns as int == q * len + at,
                at + 1 == len,
        ;
        vstd::arithmetic::div_mod::lemma_fundamental_div_mod_converse(g.turns + 1, len, q + 1, 0);
    }
}

} // verus!
