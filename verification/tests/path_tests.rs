use bftp::path_utils::{
    file_name_chars, join_chars_path, normalize_path, parent_chars, parse_dest_path, resolve_local_path,
    simplify_path,
};
use std::path::Path;

fn chars(s: &str) -> Vec<char> {
    s.chars().collect()
}

fn text(v: &[char]) -> String {
    v.iter().collect()
}

fn all_strings(max_len: usize) -> Vec<String> {
    let alphabet = ['a', '.', '/'];
    let mut out = vec![String::new()];
    let mut layer = vec![String::new()];
    for _ in 0..max_len {
        let mut next = Vec::new();
        for s in &layer {
            for c in alphabet {
                let mut t = s.clone();
                t.push(c);
                next.push(t);
            }
        }
        out.extend(next.iter().cloned());
        layer = next;
    }
    out
}

#[test]
fn simplify_examples() {
    assert_eq!(simplify_path("/a/b/../c/./d//"), "/a/c/d");
    assert_eq!(simplify_path(""), "/");
    assert_eq!(simplify_path("/.."), "/");
    assert_eq!(simplify_path("a/b"), "/a/b");
    assert_eq!(simplify_path("///"), "/");
}

#[test]
fn simplify_twice_is_simplify_once() {
    for s in all_strings(5) {
        let once = simplify_path(&s);
        assert_eq!(simplify_path(&once), once, "input {:?}", s);
    }
}

#[test]
fn normalize_examples() {
    assert_eq!(normalize_path("/a/b", ".."), "/a");
    assert_eq!(normalize_path("/a", ".."), "/");
    assert_eq!(normalize_path("/", ".."), "/");
    assert_eq!(normalize_path("/a/b/", ".."), "/a");
    assert_eq!(normalize_path("/a/b", "."), "/a/b");
    assert_eq!(normalize_path("/a", "c/d"), "/a/c/d");
    assert_eq!(normalize_path("/a/", "c"), "/a/c");
    assert_eq!(normalize_path("/a", "/x/../y"), "/y");
    assert_eq!(normalize_path("/a/b", "../c"), "/a/c");
    assert_eq!(normalize_path("relative", ".."), "/");
}

#[test]
fn normalize_keeps_canonical_paths_canonical() {
    let currents = ["/", "/a", "/a/b", "/x/y/z"];
    for cur in currents {
        for t in all_strings(4) {
            let r = normalize_path(cur, &t);
            assert_eq!(simplify_path(&r), r, "current {:?} target {:?}", cur, t);
        }
        assert_eq!(normalize_path(cur, ".."), simplify_path(&format!("{}/..", cur)));
    }
}

#[test]
fn resolve_local_examples() {
    assert_eq!(resolve_local_path("/home/u", "docs"), "/home/u/docs");
    assert_eq!(resolve_local_path("/home/u/", "docs"), "/home/u/docs");
    assert_eq!(resolve_local_path("/home/u", "/tmp/x"), "/tmp/x");
    assert_eq!(resolve_local_path("/home/u", "../x"), "/home/u/../x");
}

#[test]
fn dest_path_examples() {
    assert_eq!(parse_dest_path("/a", "/b/", "/a/f.txt"), ("/b".to_string(), "f.txt".to_string()));
    assert_eq!(parse_dest_path("/a", "new.txt", "/a/f.txt"), ("/a".to_string(), "new.txt".to_string()));
    assert_eq!(parse_dest_path("/a", "/", "/a/f.txt"), ("/".to_string(), "f.txt".to_string()));
    assert_eq!(parse_dest_path("/a", "..", "/a/f"), ("/".to_string(), "untitled".to_string()));
    assert_eq!(parse_dest_path("/a", "sub/n", "/a/f"), ("/a/sub".to_string(), "n".to_string()));
}

#[test]
fn dest_parts_join_back() {
    for d in ["x", "x/y", "/p/q", "../r"] {
        let (dir, name) = parse_dest_path("/a/b", d, "/a/b/f");
        let full = normalize_path("/a/b", d);
        let rejoined = if dir == "/" { format!("/{}", name) } else { format!("{}/{}", dir, name) };
        assert_eq!(rejoined, full, "dest {:?}", d);
    }
}

#[test]
fn file_name_agrees_with_std() {
    for s in all_strings(5) {
        let ours = file_name_chars(&chars(&s)).map(|v| text(&v));
        let std_name = Path::new(&s).file_name().map(|n| n.to_str().unwrap().to_string());
        assert_eq!(ours, std_name, "path {:?}", s);
    }
}

#[test]
fn parent_agrees_with_std() {
    for s in all_strings(5) {
        let ours = parent_chars(&chars(&s)).map(|v| text(&v));
        let std_parent = Path::new(&s).parent().map(|n| n.to_str().unwrap().to_string());
        assert_eq!(ours, std_parent, "path {:?}", s);
    }
}

#[test]
fn join_agrees_with_std() {
    let strings = all_strings(3);
    for b in &strings {
        for r in &strings {
            let ours = text(&join_chars_path(&chars(b), &chars(r)));
            let std_join = Path::new(b).join(r).to_str().unwrap().to_string();
            assert_eq!(ours, std_join, "base {:?} rel {:?}", b, r);
        }
    }
}

fn canonical_shape(p: &str) -> bool {
    p.starts_with('/')
        && !p.contains("//")
        && (p == "/" || !p.ends_with('/'))
        && p.split('/').all(|c| c != "." && c != "..")
}

#[test]
fn relative_targets_resolve_to_canonical_joins() {
    let currents: Vec<String> = all_strings(4).into_iter().filter(|c| canonical_shape(c)).collect();
    for cur in &currents {
        for t in all_strings(4) {
            if t.starts_with('/') {
                continue;
            }
            let r = normalize_path(cur, &t);
            assert_eq!(r, simplify_path(&format!("{}/{}", cur, t)), "current {:?} target {:?}", cur, t);
            assert!(canonical_shape(&r), "current {:?} target {:?}", cur, t);
        }
    }
    for p in all_strings(5) {
        assert!(canonical_shape(&simplify_path(&p)), "path {:?}", p);
    }
    assert_eq!(simplify_path("/a/./b/../../c/"), "/c");
    assert_eq!(simplify_path("/../x"), "/x");
}

#[test]
fn destinations_resolve_back() {
    for d in all_strings(4) {
        if d.ends_with('/') || normalize_path("/a/b", &d) == "/" {
            continue;
        }
        let (dir, name) = parse_dest_path("/a/b", &d, "/src/f");
        assert!(!name.is_empty() && !name.contains('/'), "dest {:?}", d);
        assert_eq!(normalize_path(&dir, &name), normalize_path("/a/b", &d), "dest {:?}", d);
    }
}
