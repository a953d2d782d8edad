//! A shell and its subshells.
//!
//! A subshell of a shell that has a store shares it: what either of them writes there, the other
//! reads, and so do their subshells. A subshell of a shell without a store starts on its own, and
//! each of the two makes a store of its own when it needs one. Shells that share a store form a
//! group.

use vstd::prelude::*;

use crate::env;
use crate::env::ScopeView;
use crate::error::Error;
use crate::shell;
use crate::shell::{RegionView, Shell, ShellView};
use crate::variables::VariableView;

verus! {

/// A shell and its subshells. Each is known by its number, from 0 for the first shell.
#[derive(Debug)]
pub struct ShellFamily {
    shells: Vec<Shell>,
    // The group of each shell.
    groups: Vec<usize>,
    // For each group the shell that was last at work, whose copy of the store is the current one.
    holders: Vec<usize>,
}

/// What one shell of a family is.
#[verifier::ext_equal]
pub struct MemberView {
    /// Its variables.
    pub env: Seq<ScopeView>,
    /// The names that it has bound.
    pub bound: Set<Seq<char>>,
    /// Its group.
    pub group: int,
}

/// What a family is.
#[verifier::ext_equal]
pub struct FamilyView {
    /// Its shells.
    pub members: Seq<MemberView>,
    /// The store of each group, where it has one yet.
    pub stores: Seq<Option<RegionView>>,
}

/// The number of every group that a shell is in stands for a group.
pub open spec fn grouped(f: FamilyView) -> bool {
    forall|i: int|
        0 <= i < f.members.len() ==> 0 <= (#[trigger] f.members[i]).group < f.stores.len()
}

/// Shell `i` of a family, with the store of its group.
pub open spec fn shell_of(f: FamilyView, i: int) -> ShellView {
    ShellView {
        env: f.members[i].env,
        region: f.stores[f.members[i].group],
        bound: f.members[i].bound,
    }
}

/// A family in which shell `i` has become `s`; the store of `s` is that of its group.
pub open spec fn with_shell(f: FamilyView, i: int, s: ShellView) -> FamilyView {
    let group = f.members[i].group;
    FamilyView {
        members: f.members.update(i, MemberView { env: s.env, bound: s.bound, group }),
        stores: f.stores.update(group, s.region),
    }
}

/// A family with one more shell, a subshell of shell `i`: it has the same variables and names
/// bound, and it is in the same group if there is a store to share.
pub open spec fn with_subshell(f: FamilyView, i: int) -> FamilyView {
    let parent = f.members[i];
    if f.stores[parent.group] is Some {
        FamilyView { members: f.members.push(parent), ..f }
    } else {
        FamilyView {
            members: f.members.push(MemberView { group: f.stores.len() as int, ..parent }),
            stores: f.stores.push(None),
        }
    }
}

/// What shells, their groups and the holders of the stores make up.
spec fn family_view(shells: Seq<Shell>, groups: Seq<usize>, holders: Seq<usize>) -> FamilyView {
    FamilyView {
        members: Seq::new(
            shells.len(),
            |i: int|
                MemberView {
                    env: shells[i]@.env,
                    bound: shells[i]@.bound,
                    group: groups[i] as int,
                },
        ),
        stores: Seq::new(holders.len(), |g: int| shells[holders[g] as int]@.region),
    }
}

/// Every shell is in a group, and the holder of a group's store is in the group.
spec fn family_wf(shells: Seq<Shell>, groups: Seq<usize>, holders: Seq<usize>) -> bool {
    &&& shells.len() == groups.len()
    &&& forall|i: int| 0 <= i < shells.len() ==> (#[trigger] shells[i]).wf()
    &&& forall|i: int| 0 <= i < groups.len() ==> (#[trigger] groups[i]) < holders.len()
    &&& forall|g: int|
        0 <= g < holders.len() ==> (#[trigger] holders[g]) < shells.len() && groups[
            holders[g] as int
        ] == g
}

impl View for ShellFamily {
    type V = FamilyView;

    closed spec fn view(&self) -> FamilyView {
        family_view(self.shells@, self.groups@, self.holders@)
    }
}

/// Replacing the holder of its group's store makes the family one with that shell.
proof fn lemma_replaced(
    shells: Seq<Shell>,
    groups: Seq<usize>,
    holders: Seq<usize>,
    i: int,
    s: Shell,
)
    requires
        family_wf(shells, groups, holders),
        0 <= i < shells.len(),
        holders[groups[i] as int] == i,
    ensures
        family_view(shells.update(i, s), groups, holders) == with_shell(
            family_view(shells, groups, holders),
            i,
            s@,
        ),
        s.wf() ==> family_wf(shells.update(i, s), groups, holders),
{
    let after = family_view(shells.update(i, s), groups, holders);
    let expected = with_shell(family_view(shells, groups, holders), i, s@);
    assert(after.members =~= expected.members);
    assert forall|g: int| 0 <= g < holders.len() implies after.stores[g] == expected.stores[g] by {
        assert(groups[holders[g] as int] == g);
    }
    assert(after.stores =~= expected.stores);
}

impl ShellFamily {
    /// The shells are well-formed, and every store is held by a shell of its group.
    pub closed spec fn wf(self) -> bool {
        family_wf(self.shells@, self.groups@, self.holders@)
    }

    /// Every shell of a well-formed family is in a group.
    pub proof fn wf_is_grouped(self)
        requires
            self.wf(),
        ensures
            grouped(self@),
    {
        assert forall|i: int| 0 <= i < self@.members.len() implies 0 <= (
        #[trigger] self@.members[i]).group < self@.stores.len() by {
            assert(self.groups@[i] < self.holders@.len());
        }
    }

    /// What a name stands for in a shell of a well-formed family has a value that can be one.
    pub proof fn lookup_is_finite(self, i: int, name: Seq<char>)
        requires
            0 <= i < self@.members.len(),
        ensures
            shell::finite_value(env::lookup(self@.members[i].env, name)),
    {
        self.shells@[i].lookup_is_finite(name);
    }

    /// A family of one shell.
    pub fn new(first: Shell) -> (r: ShellFamily)
        requires
            first.wf(),
        ensures
            r.wf(),
            r@.members.len() == 1,
            r@.stores == seq![first@.region],
            shell_of(r@, 0) == first@,
    {
        let ghost region = first@.region;
        let mut shells: Vec<Shell> = Vec::new();
        shells.push(first);
        let mut groups: Vec<usize> = Vec::new();
        groups.push(0);
        let mut holders: Vec<usize> = Vec::new();
        holders.push(0);
        let r = ShellFamily { shells, groups, holders };
        assert(r@.stores =~= seq![region]);
        r
    }

    /// How many shells there are.
    pub fn len(&self) -> (r: usize)
        ensures
            r == self@.members.len(),
    {
        self.shells.len()
    }

    /// Makes a subshell of shell `i`, and returns its number.
    pub fn subshell(&mut self, i: usize) -> (r: usize)
        requires
            old(self).wf(),
            i < old(self)@.members.len(),
        ensures
            final(self).wf(),
            final(self)@ == with_subshell(old(self)@, i as int),
            r == old(self)@.members.len(),
    {
        let number = self.shells.len();
        let group = self.groups[i];
        proof {
            assert(self.groups@[i as int] < self.holders@.len());
            assert(self.holders@[group as int] < self.shells@.len());
            assert(self.shells@[i as int].wf());
            assert(self.shells@[self.holders@[group as int] as int].wf());
        }
        let holder = self.holders[group];
        let shares = self.shells[holder].shared_region().is_some();
        let mut child = self.shells[i].copied();
        child.set_store(None);
        self.shells.push(child);
        if shares {
            self.groups.push(group);
        } else {
            let fresh = self.holders.len();
            self.groups.push(fresh);
            self.holders.push(number);
        }
        proof {
            let before = old(self)@;
            let expected = with_subshell(before, i as int);
            assert forall|g: int| 0 <= g < before.stores.len() implies self@.stores[g]
                == before.stores[g] by {
                assert(old(self).holders@[g] < old(self).shells@.len());
            }
            assert(self@.members =~= expected.members);
            assert(self@.stores =~= expected.stores);
            assert forall|j: int| 0 <= j < self.shells@.len() implies (
            #[trigger] self.shells@[j]).wf() by {
                if j < number {
                    assert(old(self).shells@[j].wf());
                }
            }
            assert forall|j: int| 0 <= j < self.groups@.len() implies (#[trigger] self.groups@[j])
                < self.holders@.len() by {
                if j < number {
                    assert(old(self).groups@[j] < old(self).holders@.len());
                }
            }
            assert forall|g: int| 0 <= g < self.holders@.len() implies (
            #[trigger] self.holders@[g]) < self.shells@.len() && self.groups@[
                self.holders@[g] as int
            ] == g by {
                if g < old(self).holders@.len() {
                    assert(old(self).holders@[g] < old(self).shells@.len());
                }
            }
        }
        number
    }

    /// Shell `i`, to be worked with. What it writes into its store is written for its group.
    pub fn shell(&mut self, i: usize) -> (r: &mut Shell)
        requires
            old(self).wf(),
            i < old(self)@.members.len(),
        ensures
            r.wf(),
            r@ == shell_of(old(self)@, i as int),
            final(self)@ == with_shell(old(self)@, i as int, final(r)@),
            final(r).wf() ==> final(self).wf(),
    {
        let group = self.groups[i];
        proof {
            assert(self.groups@[i as int] < self.holders@.len());
            assert(self.holders@[group as int] < self.shells@.len());
            assert(self.shells@[i as int].wf());
            assert(self.shells@[self.holders@[group as int] as int].wf());
        }
        let holder = self.holders[group];
        if holder != i {
            let store = self.shells[holder].store_copy();
            self.shells[i].set_store(store);
            self.holders.set(group, i);
        }
        proof {
            lemma_handed_over(
                old(self).shells@,
                old(self).groups@,
                old(self).holders@,
                i,
                self.shells@[i as int],
            );
            assert(self.shells@ =~= old(self).shells@.update(i as int, self.shells@[i as int]));
            assert(self.holders@ =~= old(self).holders@.update(group as int, i));
            assert forall|s: Shell| #[trigger]
                family_view(self.shells@.update(i as int, s), self.groups@, self.holders@)
                    == with_shell(old(self)@, i as int, s@) by {
                lemma_replaced(self.shells@, self.groups@, self.holders@, i as int, s);
            }
            assert forall|s: Shell| s.wf() implies #[trigger] family_wf(
                self.shells@.update(i as int, s),
                self.groups@,
                self.holders@,
            ) by {
                lemma_replaced(self.shells@, self.groups@, self.holders@, i as int, s);
            }
        }
        &mut self.shells[i]
    }
}

/// A shell to which the store of its group was handed over can be the holder of it.
proof fn lemma_handed_over(
    shells: Seq<Shell>,
    groups: Seq<usize>,
    holders: Seq<usize>,
    i: usize,
    s: Shell,
)
    requires
        family_wf(shells, groups, holders),
        i < shells.len(),
        s.wf(),
        s@ == shell_of(family_view(shells, groups, holders), i as int),
    ensures
        ({
            let shells2 = shells.update(i as int, s);
            let holders2 = holders.update(groups[i as int] as int, i);
            &&& family_wf(shells2, groups, holders2)
            &&& family_view(shells2, groups, holders2) == family_view(shells, groups, holders)
        }),
{
    let before = family_view(shells, groups, holders);
    let after = family_view(
        shells.update(i as int, s),
        groups,
        holders.update(groups[i as int] as int, i),
    );
    assert(groups[i as int] < holders.len());
    assert(after.members =~= before.members);
    assert forall|g: int| 0 <= g < holders.len() implies after.stores[g] == before.stores[g] by {
        assert(groups[holders[g] as int] == g);
    }
    assert(after.stores =~= before.stores);
}

/// What one shell pushes into its store is what every shell of its group reads that has the name
/// bound, while its own copy of the variable stays as it is.
pub proof fn pushed_variable_is_seen_in_group(f: FamilyView, i: int, j: int, name: Seq<char>)
    requires
        grouped(f),
        0 <= i < f.members.len(),
        0 <= j < f.members.len(),
        f.members[i].group == f.members[j].group,
        f.members[i].bound.contains(name),
        f.members[j].bound.contains(name),
        shell::sound_shell(shell_of(f, i)),
        shell::finite_value(env::lookup(f.members[i].env, name)),
        shell::sync_outcome(shell_of(f, i), name).1 is Ok,
    ensures
        ({
            let f2 = with_shell(f, i, shell::sync_outcome(shell_of(f, i), name).0);
            &&& shell::read_outcome(shell_of(f2, j), name) == Ok::<Option<VariableView>, Error>(
                shell::pushed(env::lookup(f.members[i].env, name)),
            )
            &&& f2.members[j].env == f.members[j].env
        }),
{
    let s = shell_of(f, i);
    let s2 = shell::sync_outcome(s, name).0;
    let f2 = with_shell(f, i, s2);
    assert(0 <= f.members[i].group < f.stores.len());
    shell::pushed_variable_is_seen_elsewhere(s, shell_of(f, j), name);
    assert(shell_of(f2, j) == (ShellView { region: s2.region, ..shell_of(f, j) }));
}

/// What a subshell pushes, its parent reads: a shell with a store makes a subshell, which changes
/// its own variables to `changed` and pushes a variable that was bound before. The parent then reads
/// what was pushed, although its own variables are as they were.
pub proof fn subshell_push_is_seen_by_parent(
    f: FamilyView,
    i: int,
    changed: Seq<ScopeView>,
    name: Seq<char>,
)
    requires
        grouped(f),
        0 <= i < f.members.len(),
        shell::sound_shell(shell_of(f, i)),
        f.members[i].bound.contains(name),
        env::nested(changed),
        shell::finite_value(env::lookup(changed, name)),
        shell::sync_outcome((ShellView { env: changed, ..shell_of(f, i) }), name).1 is Ok,
    ensures
        ({
            let child = f.members.len() as int;
            let f1 = with_subshell(f, i);
            let f2 = with_shell(f1, child, ShellView { env: changed, ..shell_of(f1, child) });
            let f3 = with_shell(f2, child, shell::sync_outcome(shell_of(f2, child), name).0);
            &&& shell::sync_outcome(shell_of(f2, child), name).1 is Ok
            &&& shell::read_outcome(shell_of(f3, i), name) == Ok::<Option<VariableView>, Error>(
                shell::pushed(env::lookup(changed, name)),
            )
            &&& f3.members[i].env == f.members[i].env
        }),
{
    let child = f.members.len() as int;
    let f1 = with_subshell(f, i);
    assert(0 <= f.members[i].group < f.stores.len());
    assert(f.stores[f.members[i].group] is Some);
    assert(shell_of(f1, child) == shell_of(f, i));
    let s = ShellView { env: changed, ..shell_of(f1, child) };
    let f2 = with_shell(f1, child, s);
    assert(shell_of(f2, child) == s);
    assert(grouped(f2)) by {
        assert forall|k: int| 0 <= k < f2.members.len() implies 0 <= (
        #[trigger] f2.members[k]).group < f2.stores.len() by {
            if k < child {
                assert(f2.members[k] == f.members[k]);
            }
        }
    }
    assert(f2.members[i] == f.members[i]);
    pushed_variable_is_seen_in_group(f2, child, i, name);
}

/// What a shell does leaves the shells of other groups as they were.
pub proof fn other_groups_are_left_alone(f: FamilyView, i: int, s: ShellView, j: int)
    requires
        grouped(f),
        0 <= i < f.members.len(),
        0 <= j < f.members.len(),
        f.members[i].group != f.members[j].group,
    ensures
        shell_of(with_shell(f, i, s), j) == shell_of(f, j),
{
    assert(0 <= f.members[i].group < f.stores.len());
    assert(0 <= f.members[j].group < f.stores.len());
}

} // verus!
