//! The ordered set of users with elevated command privileges.

use vstd::prelude::*;

verus! {

/// Users allowed to run admin commands, in the order they were added.
/// Membership is exact string match; the roster is not persisted.
pub struct AdminRoster {
    pub users: Vec<String>,
}

impl View for AdminRoster {
    type V = Seq<Seq<char>>;

    open spec fn view(&self) -> Seq<Seq<char>> {
        self.users@.map_values(|s: String| s@)
    }
}

impl AdminRoster {
    pub fn new(initial: Vec<String>) -> (r: AdminRoster)
        ensures
            r@ == initial@.map_values(|s: String| s@),
    {
        AdminRoster { users: initial }
    }

    pub fn len(&self) -> (n: usize)
        ensures
            n == self@.len(),
    {
        self.users.len()
    }

    /// Whether the user may run admin commands.
    pub fn is_admin(&self, user: &String) -> (r: bool)
        ensures
            r == self@.contains(user@),
    {
        let n = self.users.len();
        let mut i: usize = 0;
        while i < n
            invariant
                n == self@.len(),
                i <= n,
                forall|j: int| 0 <= j < i ==> self@[j] != user@,
            decreases n - i,
        {
            if self.users[i] == *user {
                proof {
                    assert(self@[i as int] == user@);
                }
                return true;
            }
            i = i + 1;
        }
        false
    }

    /// Grant the user admin privileges; the newest member comes last.
    pub fn add(&mut self, user: &String)
        ensures
            final(self)@ == old(self)@.push(user@),
    {
        self.users.push(user.clone());
        proof {
            assert(self@ =~= old(self)@.push(user@));
        }
    }

    /// A copy of the members, in roster order.
    pub fn members(&self) -> (r: Vec<String>)
        ensures
            r@.map_values(|s: String| s@) == self@,
    {
        let mut out: Vec<String> = Vec::new();
        let n = self.users.len();
        let mut i: usize = 0;
        while i < n
            invariant
                n == self@.len(),
                i <= n,
                out@.len() == i,
                forall|j: int| 0 <= j < i ==> #[trigger] out@[j]@ == self@[j],
            decreases n - i,
        {
            out.push(self.users[i].clone());
            proof {
                assert(self@[i as int] == self.users@[i as int]@);
            }
            i = i + 1;
        }
        proof {
            assert(out@.map_values(|s: String| s@) =~= self@);
        }
        out
    }

    /// The members followed by one further user: the list handed to a
    /// permission push, the bot's own identity at the end.
    pub fn members_and(&self, extra: &String) -> (r: Vec<String>)
        ensures
            r@.map_values(|s: String| s@) == self@.push(extra@),
    {
        let mut out = self.members();
        out.push(extra.clone());
        proof {
            assert(out@.map_values(|s: String| s@) =~= self@.push(extra@));
        }
        out
    }
}

} // verus!
