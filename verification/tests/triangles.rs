use std::collections::{HashMap, HashSet};
use tweet_query::graph::{find_triangles, Pair};
use tweet_query::triangle::{index_users, screen_names, triples_for, user_for, User};

fn pair(from: &str, to: &str) -> Pair {
    Pair { from: from.to_string(), to: to.to_string() }
}

fn names(t: &(String, String, String)) -> (&str, &str, &str) {
    (t.0.as_str(), t.1.as_str(), t.2.as_str())
}

fn user(screen_name: &str, name: &str) -> User {
    let mut u = User::unknown(screen_name.to_string());
    u.name = name.to_string();
    u
}

#[test]
fn mutual_triangle_found_once_in_name_order() {
    let edges = vec![
        pair("carol", "alice"),
        pair("alice", "bob"),
        pair("bob", "alice"),
        pair("bob", "carol"),
        pair("carol", "bob"),
        pair("alice", "carol"),
        pair("alice", "bob"),
    ];
    let r = find_triangles(&edges);
    assert_eq!(r.len(), 1);
    assert_eq!(names(&r[0]), ("alice", "bob", "carol"));
}

#[test]
fn one_way_reply_breaks_the_triangle() {
    let edges = vec![
        pair("alice", "bob"),
        pair("bob", "alice"),
        pair("bob", "carol"),
        pair("carol", "bob"),
        pair("alice", "carol"),
    ];
    assert!(find_triangles(&edges).is_empty());
}

#[test]
fn two_triangles_sharing_a_pair() {
    let mut edges = Vec::new();
    for (a, b) in [("a", "b"), ("b", "c"), ("a", "c"), ("a", "d"), ("b", "d")] {
        edges.push(pair(a, b));
        edges.push(pair(b, a));
    }
    let mut r: Vec<(String, String, String)> = find_triangles(&edges);
    r.sort();
    assert_eq!(r.len(), 2);
    assert_eq!(names(&r[0]), ("a", "b", "c"));
    assert_eq!(names(&r[1]), ("a", "b", "d"));
}

#[test]
fn name_order_is_by_code_point() {
    let mut edges = Vec::new();
    for (a, b) in [("Zed", "amy"), ("amy", "Bob"), ("Bob", "Zed")] {
        edges.push(pair(a, b));
        edges.push(pair(b, a));
    }
    let r = find_triangles(&edges);
    assert_eq!(r.len(), 1);
    assert_eq!(names(&r[0]), ("Bob", "Zed", "amy"));
}

#[test]
fn self_replies_make_no_triangle() {
    let edges = vec![pair("a", "a"), pair("a", "b"), pair("b", "a")];
    assert!(find_triangles(&edges).is_empty());
}

#[test]
fn screen_names_lists_each_member_once() {
    let t = vec![
        ("a".to_string(), "b".to_string(), "c".to_string()),
        ("a".to_string(), "b".to_string(), "d".to_string()),
    ];
    let mut n = screen_names(&t);
    n.sort();
    assert_eq!(n, vec!["a", "b", "c", "d"]);
    assert!(screen_names(&Vec::new()).is_empty());
}

#[test]
fn later_users_win_in_the_index() {
    let m = index_users(vec![user("a", "first"), user("b", "bee"), user("a", "second")]);
    assert_eq!(user_for("a".to_string(), &m).name, "second");
    assert_eq!(user_for("b".to_string(), &m).name, "bee");
}

#[test]
fn unknown_user_is_a_stand_in() {
    let m = index_users(vec![user("a", "Ann")]);
    let u = user_for("zoe".to_string(), &m);
    assert_eq!(u.screen_name, "zoe");
    assert_eq!(u.name, "");
    assert!(u.verified.is_none() && u.followers_count.is_none() && u.description.is_none());
}

#[test]
fn triples_replace_names_by_users() {
    let m = index_users(vec![user("a", "Ann"), user("c", "Cy")]);
    let t = vec![("a".to_string(), "b".to_string(), "c".to_string())];
    let r = triples_for(t, &m);
    assert_eq!(r.len(), 1);
    assert_eq!(r[0].a.name, "Ann");
    assert_eq!(r[0].b.screen_name, "b");
    assert_eq!(r[0].b.name, "");
    assert_eq!(r[0].c.name, "Cy");
}

#[test]
fn duplicate_copies_every_field() {
    let mut u = user("a", "Ann");
    u.followers_count = Some(12);
    u.verified = Some(true);
    u.lang = Some("en".to_string());
    let d = u.duplicate();
    assert_eq!(d.name, "Ann");
    assert_eq!(d.followers_count, Some(12));
    assert_eq!(d.verified, Some(true));
    assert_eq!(d.lang.as_deref(), Some("en"));
}

#[test]
fn looked_up_users_carry_their_screen_names() {
    let m = index_users(vec![user("a", "Ann"), user("b", "Bo")]);
    for k in ["a", "b", "zed"] {
        assert_eq!(user_for(k.to_string(), &m).screen_name, k);
    }
}

fn reference_triangles(edges: &[(String, String)]) -> Vec<(String, String, String)> {
    let edges: HashSet<(String, String)> = edges.iter().cloned().collect();
    let mutual: HashSet<(String, String)> = edges
        .iter()
        .filter(|p| p.0 < p.1 && edges.contains(&(p.1.clone(), p.0.clone())))
        .cloned()
        .collect();
    let mut adj: HashMap<String, HashSet<String>> = HashMap::new();
    for (a, b) in &mutual {
        adj.entry(a.clone()).or_default().insert(b.clone());
        adj.entry(b.clone()).or_default().insert(a.clone());
    }
    let mut out = Vec::new();
    for (a, b) in &mutual {
        for c in adj[a].intersection(&adj[b]) {
            if b < c {
                out.push((a.clone(), b.clone(), c.clone()));
            }
        }
    }
    out.sort();
    out
}

#[test]
fn matches_the_set_based_search_on_generated_graphs() {
    let mut seed: u64 = 12345;
    let mut next = || {
        seed = seed.wrapping_mul(6364136223846793005).wrapping_add(1442695040888963407);
        (seed >> 33) as usize
    };
    let names = ["ann", "Bob", "cy", "dee", "Eve", "fay", "gus", "hal", "ivy"];
    for _ in 0..40 {
        let count = next() % 60;
        let mut raw = Vec::new();
        for _ in 0..count {
            let a = names[next() % names.len()].to_string();
            let b = names[next() % names.len()].to_string();
            raw.push((a, b));
        }
        let edges: Vec<Pair> = raw.iter().map(|(a, b)| pair(a, b)).collect();
        let mut got = find_triangles(&edges);
        got.sort();
        assert_eq!(got, reference_triangles(&raw));
    }
}
