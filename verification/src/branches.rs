use vstd::prelude::*;

verus! {

/// The ALT Linux repository branches that can be compared.
#[derive(Clone, Copy, Debug, PartialEq, Eq, Structural)]
pub enum Branch {
    Sisyphus,
    P9,
    P10,
    P11,
}

impl Branch {
    /// The name under which the branch is known to the ALT Linux database.
    pub open spec fn name_view(self) -> Seq<char> {
        match self {
            Branch::Sisyphus => seq!['s', 'i', 's', 'y', 'p', 'h', 'u', 's'],
            Branch::P9 => seq!['p', '9'],
            Branch::P10 => seq!['p', '1', '0'],
            Branch::P11 => seq!['p', '1', '1'],
        }
    }

    /// Returns the database name of the branch.
    pub fn as_str(&self) -> (name: &'static str)
        ensures
            name@ == self.name_view(),
    {
        match self {
            Branch::Sisyphus => {
                proof {
                    reveal_strlit("sisyphus");
                }
                "sisyphus"
            },
            Branch::P9 => {
                proof {
                    reveal_strlit("p9");
                }
                "p9"
            },
            Branch::P10 => {
                proof {
                    reveal_strlit("p10");
                }
                "p10"
            },
            Branch::P11 => {
                proof {
                    reveal_strlit("p11");
                }
                "p11"
            },
        }
    }
}

/// Every branch, in the order in which they are offered.
pub open spec fn all_branches() -> Seq<Branch> {
    seq![Branch::Sisyphus, Branch::P9, Branch::P10, Branch::P11]
}

/// The branches that can be compared with `chosen`: all the others, in their order.
pub fn other_branches(chosen: Branch) -> (others: Vec<Branch>)
    ensures
        others@ == all_branches().filter(|b: Branch| b != chosen),
        others.len() == 3,
        !others@.contains(chosen),
{
    let mut others: Vec<Branch> = Vec::new();
    if chosen != Branch::Sisyphus {
        others.push(Branch::Sisyphus);
    }
    if chosen != Branch::P9 {
        others.push(Branch::P9);
    }
    if chosen != Branch::P10 {
        others.push(Branch::P10);
    }
    if chosen != Branch::P11 {
        others.push(Branch::P11);
    }
    proof {
        let pred = |b: Branch| b != chosen;
        reveal_with_fuel(Seq::<_>::filter, 5);
        let all = all_branches();
        assert(all.drop_last() =~= seq![Branch::Sisyphus, Branch::P9, Branch::P10]);
        assert(all.drop_last().drop_last() =~= seq![Branch::Sisyphus, Branch::P9]);
        assert(all.drop_last().drop_last().drop_last() =~= seq![Branch::Sisyphus]);
        assert(all.drop_last().drop_last().drop_last().drop_last() =~= Seq::<Branch>::empty());
        assert(others@ =~= all.filter(pred));
    }
    others
}

/// Distinct branches have distinct names, so a branch is identified by its name.
pub proof fn lemma_branch_name_identifies_branch(a: Branch, b: Branch)
    ensures
        a.name_view() == b.name_view() <==> a == b,
{
    if a != b && a.name_view() == b.name_view() {
        let na = a.name_view();
        let nb = b.name_view();
        assert(na.len() == nb.len());
        assert(na[0] == nb[0]);
        assert(na[na.len() - 1] == nb[nb.len() - 1]);
    }
}

} // verus!
