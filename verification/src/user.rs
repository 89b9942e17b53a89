use vstd::prelude::*;

verus! {

/// One participant: an opaque identifier, the display name once chosen,
/// and the running streak of consecutive correct answers.
#[derive(Debug)]
pub struct User {
    pub id: String,
    pub username: Option<String>,
    pub combo: u32,
}

/// Mathematical image of a [`User`].
pub ghost struct UserView {
    pub id: Seq<char>,
    pub username: Option<Seq<char>>,
    pub combo: u32,
}

impl View for User {
    type V = UserView;

    open spec fn view(&self) -> UserView {
        UserView {
            id: self.id@,
            username: match self.username {
                Some(u) => Some(u@),
                None => None,
            },
            combo: self.combo,
        }
    }
}

impl Clone for User {
    fn clone(&self) -> (r: Self)
        ensures
            r@ == self@,
    {
        User {
            id: self.id.clone(),
            username: match &self.username {
                Some(u) => Some(u.clone()),
                None => None,
            },
            combo: self.combo,
        }
    }
}

impl User {
    /// A fresh participant: no name yet and an empty streak.
    pub fn new(id: String) -> (r: Self)
        ensures
            r@ == (UserView { id: id@, username: None, combo: 0 }),
    {
        User { id, username: None, combo: 0 }
    }

    pub fn id(&self) -> (r: &str)
        ensures
            r@ == self@.id,
    {
        self.id.as_str()
    }

    pub fn combo(&self) -> (r: u32)
        ensures
            r == self@.combo,
    {
        self.combo
    }

    /// One more consecutive correct answer.
    pub fn increment_combo(&mut self)
        requires
            old(self).combo < u32::MAX,
        ensures
            final(self)@ == (UserView { combo: (old(self).combo + 1) as u32, ..old(self)@ }),
    {
        self.combo = self.combo + 1;
    }

    /// A miss ends the streak, whatever it was.
    pub fn reset_combo(&mut self)
        ensures
            final(self)@ == (UserView { combo: 0, ..old(self)@ }),
    {
        self.combo = 0;
    }

    pub fn set_username(&mut self, username: String)
        ensures
            final(self)@ == (UserView { username: Some(username@), ..old(self)@ }),
    {
        self.username = Some(username);
    }
}

pub open spec fn users_view(s: Seq<User>) -> Seq<UserView> {
    s.map_values(|u: User| u@)
}

/// Position of the first participant carrying `id`, or -1 when none does.
pub open spec fn first_user_index(users: Seq<UserView>, id: Seq<char>) -> int
    decreases users.len(),
{
    if users.len() == 0 {
        -1
    } else if users[0].id == id {
        0
    } else {
        let r = first_user_index(users.drop_first(), id);
        if r < 0 {
            -1
        } else {
            r + 1
        }
    }
}

/// `first_user_index` points inside the sequence, at a participant with
/// that id, whenever it is non-negative.
pub proof fn lemma_first_user_index_bounds(users: Seq<UserView>, id: Seq<char>)
    ensures
        -1 <= first_user_index(users, id) < users.len(),
        first_user_index(users, id) >= 0 ==> users[first_user_index(users, id)].id == id,
    decreases users.len(),
{
    if users.len() > 0 && users[0].id != id {
        lemma_first_user_index_bounds(users.drop_first(), id);
    }
}

/// A scan that saw no carrier of `id` before `i`, and one at `i` unless
/// it ran out, has found exactly `first_user_index`.
proof fn lemma_first_user_index_at(users: Seq<UserView>, id: Seq<char>, i: int)
    requires
        0 <= i <= users.len(),
        forall|j: int| 0 <= j < i ==> (#[trigger] users[j]).id != id,
        i < users.len() ==> users[i].id == id,
    ensures
        first_user_index(users, id) == if i == users.len() {
            -1int
        } else {
            i
        },
    decreases users.len(),
{
    if users.len() > 0 {
        if i > 0 {
            assert(users[0].id != id);
            lemma_first_user_index_at(users.drop_first(), id, i - 1);
        }
    }
}

/// Participants that carry the same ids slot for slot are found at the
/// same position, whichever id is asked for.
pub proof fn lemma_first_user_index_same_ids(a: Seq<UserView>, b: Seq<UserView>, id: Seq<char>)
    requires
        a.len() == b.len(),
        forall|i: int| 0 <= i < a.len() ==> (#[trigger] a[i]).id == b[i].id,
    ensures
        first_user_index(a, id) == first_user_index(b, id),
    decreases a.len(),
{
    if a.len() > 0 {
        assert(a[0].id == b[0].id);
        lemma_first_user_index_same_ids(a.drop_first(), b.drop_first(), id);
    }
}

/// The participant roster, in joining order; nothing ever leaves it.
#[derive(Debug)]
pub struct Users(pub Vec<User>);

impl Users {
    /// An empty roster.
    pub fn new() -> (r: Self)
        ensures
            r.0@.len() == 0,
    {
        Users(Vec::new())
    }

    /// Mutable access to the first participant carrying `user_id`; only
    /// that slot of the roster can change through it.
    pub fn get_mut(&mut self, user_id: &str) -> (r: Option<&mut User>)
        ensures
            ({
                let idx = first_user_index(users_view(old(self).0@), user_id@);
                &&& idx < 0 ==> r is None && final(self).0@ == old(self).0@
                &&& idx >= 0 ==> (match r {
                    Some(u) => *u == old(self).0@[idx]
                        && final(self).0@ == old(self).0@.update(idx, *final(u)),
                    None => false,
                })
            }),
    {
        let ghost uv = users_view(self.0@);
        let wanted = String::from_str(user_id);
        let n = self.0.len();
        let mut i: usize = 0;
        while i < n
            invariant
                i <= n,
                n == self.0@.len(),
                wanted@ == user_id@,
                self.0@ == old(self).0@,
                uv == users_view(self.0@),
                forall|j: int| 0 <= j < i ==> (#[trigger] uv[j]).id != user_id@,
            decreases n - i,
        {
            if self.0[i].id == wanted {
                proof {
                    lemma_first_user_index_at(uv, user_id@, i as int);
                }
                return Some(vstd::std_specs::vec::vec_index_mut(&mut self.0, i));
            }
            i += 1;
        }
        proof {
            lemma_first_user_index_at(uv, user_id@, n as int);
        }
        None
    }

    /// Appends a participant; everyone already on the roster stays put.
    pub fn add(&mut self, user: User)
        ensures
            final(self).0@ == old(self).0@.push(user),
    {
        self.0.push(user);
    }
}

} // verus!
