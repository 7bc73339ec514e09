use vstd::prelude::*;
use vstd::hash_map::StringHashMap;
use vstd::hash_set::StringHashSet;

verus! {

/// What is known of a user who stands at a corner of a triangle.
#[derive(Clone, Debug)]
pub struct User {
    pub name: String,
    pub screen_name: String,
    pub id_str: Option<String>,
    pub location: Option<String>,
    pub description: Option<String>,
    pub verified: Option<bool>,
    pub followers_count: Option<i64>,
    pub friends_count: Option<i64>,
    pub statuses_count: Option<i64>,
    pub created_at: Option<String>,
    pub lang: Option<String>,
    pub time_zone: Option<String>,
}

/// Three users who all replied to each other.
#[derive(Debug)]
pub struct Triple {
    pub a: User,
    pub b: User,
    pub c: User,
}

fn copy_text(value: &Option<String>) -> (r: Option<String>)
    ensures
        r == *value,
{
    match value {
        Some(s) => Some(s.clone()),
        None => None,
    }
}

impl User {
    /// The stand-in for a user of whom nothing but the screen name is known.
    pub open spec fn unknown_spec(screen_name: Seq<char>) -> (Seq<char>, Seq<char>, bool) {
        (Seq::empty(), screen_name, true)
    }

    /// The user is the stand-in: empty name, the given screen name, every
    /// optional detail absent.
    pub open spec fn is_unknown(&self, screen_name: Seq<char>) -> bool {
        &&& self.name@ == Seq::<char>::empty()
        &&& self.screen_name@ == screen_name
        &&& self.id_str is None
        &&& self.location is None
        &&& self.description is None
        &&& self.verified is None
        &&& self.followers_count is None
        &&& self.friends_count is None
        &&& self.statuses_count is None
        &&& self.created_at is None
        &&& self.lang is None
        &&& self.time_zone is None
    }

    /// A stand-in user with only a screen name.
    pub fn unknown(screen_name: String) -> (r: User)
        ensures
            r.is_unknown(screen_name@),
    {
        User {
            name: String::new(),
            screen_name,
            id_str: None,
            location: None,
            description: None,
            verified: None,
            followers_count: None,
            friends_count: None,
            statuses_count: None,
            created_at: None,
            lang: None,
            time_zone: None,
        }
    }

    /// A field-by-field copy.
    pub fn duplicate(&self) -> (r: User)
        ensures
            r == *self,
    {
        User {
            name: self.name.clone(),
            screen_name: self.screen_name.clone(),
            id_str: copy_text(&self.id_str),
            location: copy_text(&self.location),
            description: copy_text(&self.description),
            verified: self.verified,
            followers_count: self.followers_count,
            friends_count: self.friends_count,
            statuses_count: self.statuses_count,
            created_at: copy_text(&self.created_at),
            lang: copy_text(&self.lang),
            time_zone: copy_text(&self.time_zone),
        }
    }
}

/// The user looked up under `screen_name`: the entry of `users` when there is
/// one, else the stand-in for that screen name.
pub open spec fn user_for_spec(screen_name: Seq<char>, users: Map<Seq<char>, User>, r: User) -> bool {
    if users.contains_key(screen_name) {
        r == users[screen_name]
    } else {
        r.is_unknown(screen_name)
    }
}

/// Looks a user up by screen name, falling back to a stand-in.
pub fn user_for(screen_name: String, user_map: &StringHashMap<User>) -> (r: User)
    ensures
        user_for_spec(screen_name@, user_map@, r),
{
    match user_map.get(screen_name.as_str()) {
        Some(u) => u.duplicate(),
        None => User::unknown(screen_name),
    }
}

/// `i` is the last position of `users` that carries screen name `k`.
pub open spec fn last_with_name(users: Seq<User>, k: Seq<char>, i: int) -> bool {
    &&& 0 <= i < users.len()
    &&& users[i].screen_name@ == k
    &&& forall|j: int| i < j < users.len() ==> #[trigger] users[j].screen_name@ != k
}

/// `m` holds, under each screen name found in `users`, the last user with
/// that screen name, and nothing else.
pub open spec fn indexes(users: Seq<User>, m: Map<Seq<char>, User>) -> bool {
    &&& forall|k: Seq<char>|
        #[trigger] m.contains_key(k) <==> exists|i: int|
            0 <= i < users.len() && users[i].screen_name@ == k
    &&& forall|k: Seq<char>, i: int| #[trigger] last_with_name(users, k, i) ==> m[k] == users[i]
}

/// A user looked up in an index of users carries the screen name it was
/// looked up under, whether it was found or stands in.
pub proof fn law_lookup_keeps_screen_name(users: Seq<User>, m: Map<Seq<char>, User>, k: Seq<char>, r: User)
    requires
        indexes(users, m),
        user_for_spec(k, m, r),
    ensures
        r.screen_name@ == k,
{
    if m.contains_key(k) {
        let i = choose|i: int| 0 <= i < users.len() && users[i].screen_name@ == k;
        lemma_last_with_name(users, k, i);
    }
}

proof fn lemma_last_with_name(users: Seq<User>, k: Seq<char>, i: int)
    requires
        0 <= i < users.len(),
        users[i].screen_name@ == k,
    ensures
        exists|j: int| #[trigger] last_with_name(users, k, j),
    decreases users.len() - i,
{
    if exists|j: int| i < j < users.len() && #[trigger] users[j].screen_name@ == k {
        let j = choose|j: int| i < j < users.len() && #[trigger] users[j].screen_name@ == k;
        lemma_last_with_name(users, k, j);
    } else {
        assert(last_with_name(users, k, i));
    }
}

/// Indexes users by screen name; when a screen name occurs more than once
/// the last of them is kept.
pub fn index_users(users: Vec<User>) -> (m: StringHashMap<User>)
    ensures
        indexes(users@, m@),
{
    let mut m: StringHashMap<User> = StringHashMap::new();
    let mut i: usize = 0;
    while i < users.len()
        invariant
            i <= users.len(),
            forall|k: Seq<char>|
                #[trigger] m@.contains_key(k) <==> exists|j: int|
                    0 <= j < i && users@[j].screen_name@ == k,
            forall|k: Seq<char>, j: int|
                #[trigger] last_with_name(users@.take(i as int), k, j) ==> m@[k] == users@[j],
        decreases users.len() - i,
    {
        let u = users[i].duplicate();
        let ghost k0 = u.screen_name@;
        m.insert(u.screen_name.clone(), u);
        proof {
            let pre = users@.take(i as int);
            let post = users@.take(i + 1);
            assert forall|k: Seq<char>|
                #[trigger] m@.contains_key(k) <==> exists|j: int|
                    0 <= j < i + 1 && users@[j].screen_name@ == k by {
                if k != k0 && exists|j: int| 0 <= j < i + 1 && users@[j].screen_name@ == k {
                    let j = choose|j: int| 0 <= j < i + 1 && users@[j].screen_name@ == k;
                    assert(j < i);
                }
            }
            assert forall|k: Seq<char>, j: int|
                #[trigger] last_with_name(post, k, j) implies m@[k] == users@[j] by {
                if k == k0 {
                    if j < i {
                        assert(post[i as int].screen_name@ == k);
                    }
                } else {
                    assert(j != i);
                    assert forall|j2: int| j < j2 < pre.len() implies #[trigger] pre[j2].screen_name@ != k by {
                        assert(pre[j2] == post[j2]);
                    }
                    assert(last_with_name(pre, k, j));
                }
            }
        }
        i = i + 1;
    }
    proof {
        assert(users@.take(users.len() as int) == users@);
    }
    m
}

/// `k` is one of the names in `names`.
pub open spec fn lists_name(names: Seq<String>, k: Seq<char>) -> bool {
    exists|i: int| 0 <= i < names.len() && #[trigger] names[i]@ == k
}

/// `k` names a member of one of the first `upto` triangles.
pub open spec fn in_triangles(triangles: Seq<(String, String, String)>, upto: int, k: Seq<char>) -> bool {
    exists|t: int| 0 <= t < upto && member_of(#[trigger] triangles[t], k)
}

/// `k` names one of the three members of `t`.
pub open spec fn member_of(t: (String, String, String), k: Seq<char>) -> bool {
    t.0@ == k || t.1@ == k || t.2@ == k
}

/// Every screen name that appears in some triangle, each once.
pub fn screen_names(triangles: &Vec<(String, String, String)>) -> (r: Vec<String>)
    ensures
        forall|i: int, j: int| 0 <= i < r.len() && 0 <= j < r.len() && i != j ==> r@[i]@ != r@[j]@,
        forall|k: Seq<char>| #[trigger] lists_name(r@, k) <==> in_triangles(triangles@, triangles.len() as int, k),
{
    let mut seen = StringHashSet::new();
    let mut r: Vec<String> = Vec::new();
    let mut t: usize = 0;
    while t < triangles.len()
        invariant
            t <= triangles.len(),
            forall|i: int, j: int| 0 <= i < r.len() && 0 <= j < r.len() && i != j ==> r@[i]@ != r@[j]@,
            forall|k: Seq<char>| #[trigger] seen@.contains(k) <==> lists_name(r@, k),
            forall|k: Seq<char>| #[trigger] lists_name(r@, k) <==> in_triangles(triangles@, t as int, k),
        decreases triangles.len() - t,
    {
        let ghost r0 = r@;
        add_name(&mut seen, &mut r, &triangles[t].0);
        add_name(&mut seen, &mut r, &triangles[t].1);
        add_name(&mut seen, &mut r, &triangles[t].2);
        proof {
            let tr = triangles@[t as int];
            assert forall|k: Seq<char>| #[trigger] lists_name(r@, k) <==> in_triangles(triangles@, t + 1, k) by {
                if in_triangles(triangles@, t + 1, k) {
                    let t2 = choose|t2: int| 0 <= t2 < t + 1 && member_of(#[trigger] triangles@[t2], k);
                    if t2 < t {
                        assert(in_triangles(triangles@, t as int, k));
                    }
                }
                if lists_name(r@, k) && !member_of(tr, k) {
                    assert(lists_name(r0, k));
                }
                if member_of(tr, k) {
                    assert(member_of(triangles@[t as int], k));
                }
            }
        }
        t = t + 1;
    }
    r
}

fn add_name(seen: &mut StringHashSet, r: &mut Vec<String>, name: &String)
    requires
        forall|i: int, j: int|
            0 <= i < old(r).len() && 0 <= j < old(r).len() && i != j ==> old(r)@[i]@ != old(r)@[j]@,
        forall|k: Seq<char>| #[trigger] old(seen)@.contains(k) <==> lists_name(old(r)@, k),
    ensures
        forall|i: int, j: int|
            0 <= i < final(r).len() && 0 <= j < final(r).len() && i != j ==> final(r)@[i]@ != final(r)@[j]@,
        forall|k: Seq<char>| #[trigger] final(seen)@.contains(k) <==> lists_name(final(r)@, k),
        forall|k: Seq<char>|
            #[trigger] lists_name(final(r)@, k) <==> (lists_name(old(r)@, k) || k == name@),
{
    let ghost r0 = r@;
    if seen.insert(name.clone()) {
        r.push(name.clone());
        proof {
            assert(r@[r0.len() as int]@ == name@);
            assert forall|k: Seq<char>| #[trigger] lists_name(r@, k) <==> (lists_name(r0, k) || k == name@) by {
                if lists_name(r0, k) {
                    let i = choose|i: int| 0 <= i < r0.len() && #[trigger] r0[i]@ == k;
                    assert(r@[i] == r0[i]);
                }
                if lists_name(r@, k) && k != name@ {
                    let i = choose|i: int| 0 <= i < r@.len() && #[trigger] r@[i]@ == k;
                    assert(r@[i] == r0[i]);
                }
            }
            assert forall|i: int, j: int|
                0 <= i < r.len() && 0 <= j < r.len() && i != j implies r@[i]@ != r@[j]@ by {
                if i == r0.len() {
                    assert(r@[j] == r0[j]);
                    assert(lists_name(r0, r@[j]@));
                } else if j == r0.len() {
                    assert(r@[i] == r0[i]);
                    assert(lists_name(r0, r@[i]@));
                } else {
                    assert(r@[i] == r0[i]);
                    assert(r@[j] == r0[j]);
                }
            }
        }
    }
}

/// Replaces each screen name of each triangle by the user looked up under it.
pub fn triples_for(triangles: Vec<(String, String, String)>, user_map: &StringHashMap<User>) -> (r: Vec<Triple>)
    ensures
        r.len() == triangles.len(),
        forall|i: int|
            0 <= i < r.len() ==> user_for_spec(triangles@[i].0@, user_map@, #[trigger] r@[i].a)
                && user_for_spec(triangles@[i].1@, user_map@, r@[i].b) && user_for_spec(
                triangles@[i].2@,
                user_map@,
                r@[i].c,
            ),
{
    let mut r: Vec<Triple> = Vec::new();
    let mut i: usize = 0;
    while i < triangles.len()
        invariant
            i <= triangles.len(),
            r.len() == i,
            forall|x: int|
                0 <= x < i ==> user_for_spec(triangles@[x].0@, user_map@, #[trigger] r@[x].a)
                    && user_for_spec(triangles@[x].1@, user_map@, r@[x].b) && user_for_spec(
                    triangles@[x].2@,
                    user_map@,
                    r@[x].c,
                ),
        decreases triangles.len() - i,
    {
        let a = user_for(triangles[i].0.clone(), user_map);
        let b = user_for(triangles[i].1.clone(), user_map);
        let c = user_for(triangles[i].2.clone(), user_map);
        r.push(Triple { a, b, c });
        i = i + 1;
    }
    r
}

} // verus!
