use std::collections::HashMap;

use http_static::content::Content;
use http_static::disk::{serve, Attempt, Decision, FileServing, Outcome, Stage};
use http_static::memory::{InMemoryServing, LoadedFile};
use http_static::path::normalize_path;
use http_static::walk::{Listed, Walk};

fn comps(p: &str) -> Vec<String> {
    p.split('/').map(|s| s.to_string()).collect()
}

fn loaded(p: &str, data: &[u8]) -> LoadedFile {
    LoadedFile { components: comps(p), data: data.to_vec() }
}

/// A tree under `/srv`: paths opened, mapped to file bytes or `None` for a directory.
fn tree() -> HashMap<String, Option<Vec<u8>>> {
    let mut t = HashMap::new();
    t.insert("/srv".to_string(), None);
    t.insert("/srv/index.html".to_string(), Some(b"<h1>home</h1>".to_vec()));
    t.insert("/srv/style.css".to_string(), Some(b"body{}".to_vec()));
    t.insert("/srv/docs".to_string(), None);
    t.insert("/srv/docs/index.html".to_string(), Some(b"<h1>docs</h1>".to_vec()));
    t.insert("/srv/empty".to_string(), None);
    t.insert("/srv/data/report.json".to_string(), Some(b"{}".to_vec()));
    t.insert("/srv/data".to_string(), None);
    t
}

fn memory_files() -> Vec<LoadedFile> {
    vec![
        loaded("index.html", b"<h1>home</h1>"),
        loaded("style.css", b"body{}"),
        loaded("docs/index.html", b"<h1>docs</h1>"),
        loaded("data/report.json", b"{}"),
    ]
}

/// Runs the disk resolver's decisions against `t`.
fn disk_resolve(fs: &FileServing, t: &HashMap<String, Option<Vec<u8>>>, request: &str) -> Content {
    let mut d = fs.start(request);
    loop {
        match d {
            Decision::Open(a) => {
                let o = match t.get(&a.path) {
                    Some(Some(_)) => Outcome::File,
                    Some(None) => Outcome::Dir,
                    None => Outcome::Missing,
                };
                d = fs.next(a, o);
            }
            Decision::Serve(a) => {
                let data = t.get(&a.path).unwrap().clone().unwrap();
                return serve(&a, data);
            }
            Decision::NotFound => return Content::not_found(),
        }
    }
}

fn opened(d: &Decision) -> &Attempt {
    match d {
        Decision::Open(a) => a,
        _ => panic!("expected an attempt to open"),
    }
}

#[test]
fn normalize_root_is_empty_key() {
    assert_eq!(normalize_path("/"), Some(String::new()));
    assert_eq!(normalize_path(""), Some(String::new()));
}

#[test]
fn normalize_drops_empty_and_dot_segments() {
    assert_eq!(normalize_path("/a/./b//c/"), Some("a/b/c".to_string()));
    assert_eq!(normalize_path("/docs/"), Some("docs".to_string()));
}

#[test]
fn normalize_parent_removes_previous_segment() {
    assert_eq!(normalize_path("/a/b/../c"), Some("a/c".to_string()));
    assert_eq!(normalize_path("/a/.."), Some(String::new()));
}

#[test]
fn normalize_rejects_traversal() {
    assert_eq!(normalize_path("/../../etc/passwd"), None);
    assert_eq!(normalize_path("/a/../../b"), None);
    assert_eq!(normalize_path(".."), None);
}

#[test]
fn not_found_content() {
    let c = Content::not_found();
    assert_eq!(c.status, 404);
    assert_eq!(c.mime, "text/plain");
    assert_eq!(c.data, b"Not Found".to_vec());
}

#[test]
fn memory_root_serves_index() {
    let m = InMemoryServing::new(memory_files(), "index.html", "index.html", None);
    let c = m.resolve("/");
    assert_eq!(c.status, 200);
    assert_eq!(c.data, b"<h1>home</h1>".to_vec());
    assert_eq!(c.mime, "text/html");
}

#[test]
fn memory_directory_serves_its_index() {
    let m = InMemoryServing::new(memory_files(), "index.html", "index.html", None);
    for p in ["/docs", "/docs/"] {
        let c = m.resolve(p);
        assert_eq!(c.status, 200);
        assert_eq!(c.data, b"<h1>docs</h1>".to_vec());
        assert_eq!(c.mime, "text/html");
    }
}

#[test]
fn memory_file_has_mime_of_its_extension() {
    let m = InMemoryServing::new(memory_files(), "index.html", "index.html", None);
    let c = m.resolve("/style.css");
    assert_eq!(c.status, 200);
    assert_eq!(c.data, b"body{}".to_vec());
    assert_eq!(c.mime, "text/css");
    let j = m.resolve("/data/report.json");
    assert_eq!(j.mime, "application/json");
}

#[test]
fn memory_miss_serves_default() {
    let m = InMemoryServing::new(
        memory_files(),
        "index.html",
        "fallback.txt",
        Some(b"fallback".to_vec()),
    );
    let c = m.resolve("/missing/page");
    assert_eq!(c.status, 200);
    assert_eq!(c.data, b"fallback".to_vec());
    assert_eq!(c.mime, "text/plain");
}

#[test]
fn memory_miss_without_default_is_not_found() {
    let m = InMemoryServing::new(memory_files(), "index.html", "index.html", None);
    let c = m.resolve("/missing");
    assert_eq!(c.status, 404);
    assert_eq!(c.data, b"Not Found".to_vec());
    assert_eq!(c.mime, "text/plain");
}

#[test]
fn memory_traversal_is_a_miss() {
    let files = vec![loaded("etc/passwd", b"secret")];
    let m = InMemoryServing::new(files, "index.html", "index.html", None);
    let c = m.resolve("/../../etc/passwd");
    assert_eq!(c.status, 404);
    assert_eq!(c.data, b"Not Found".to_vec());
}

#[test]
fn memory_key_collision_keeps_one_entry() {
    let files = vec![loaded("a/index.html", b"first"), loaded("a/index.html", b"second")];
    let m = InMemoryServing::new(files, "index.html", "index.html", None);
    let c = m.resolve("/a");
    assert_eq!(c.status, 200);
    assert_eq!(c.data, b"second".to_vec());
}

#[test]
fn memory_insert_replaces() {
    let mut m = InMemoryServing::with_default(None);
    m.insert("k".to_string(), Content::found(b"1".to_vec(), "text/plain".to_string()));
    m.insert("k".to_string(), Content::found(b"2".to_vec(), "text/plain".to_string()));
    assert_eq!(m.resolve("/k").data, b"2".to_vec());
}

#[test]
fn disk_start_for_root_opens_index() {
    let fs = FileServing::new("/srv", "index.html", "/srv/index.html");
    let d = fs.start("/");
    let a = opened(&d);
    assert_eq!(a.stage, Stage::Index);
    assert_eq!(a.path, "/srv/index.html");
    assert_eq!(a.mime, "text/html");
}

#[test]
fn disk_start_opens_file_under_root() {
    let fs = FileServing::new("/srv", "index.html", "/srv/index.html");
    let d = fs.start("/a/./b/../style.css");
    let a = opened(&d);
    assert_eq!(a.stage, Stage::Requested);
    assert_eq!(a.rel, "a/style.css");
    assert_eq!(a.path, "/srv/a/style.css");
    assert_eq!(a.mime, "text/css");
}

#[test]
fn disk_directory_goes_to_index_then_default_then_not_found() {
    let fs = FileServing::new("/srv", "index.html", "/var/default.txt");
    let d = fs.start("/docs");
    let d = fs.next(opened(&d).duplicate(), Outcome::Dir);
    let a = opened(&d);
    assert_eq!(a.stage, Stage::Index);
    assert_eq!(a.path, "/srv/docs/index.html");
    assert_eq!(a.mime, "text/html");
    let d = fs.next(a.duplicate(), Outcome::Missing);
    let a = opened(&d);
    assert_eq!(a.stage, Stage::Fallback);
    assert_eq!(a.path, "/var/default.txt");
    assert_eq!(a.mime, "text/plain");
    let d = fs.next(a.duplicate(), Outcome::Missing);
    assert!(matches!(d, Decision::NotFound));
}

#[test]
fn disk_found_file_is_served() {
    let fs = FileServing::new("/srv", "index.html", "/srv/index.html");
    let d = fs.start("/style.css");
    let d = fs.next(opened(&d).duplicate(), Outcome::File);
    match d {
        Decision::Serve(a) => {
            let c = serve(&a, b"body{}".to_vec());
            assert_eq!(c.status, 200);
            assert_eq!(c.mime, "text/css");
            assert_eq!(c.data, b"body{}".to_vec());
        }
        _ => panic!("expected the file to be served"),
    }
}

#[test]
fn disk_traversal_opens_only_default() {
    let fs = FileServing::new("/srv", "index.html", "/srv/index.html");
    let d = fs.start("/../../etc/passwd");
    let a = opened(&d);
    assert_eq!(a.stage, Stage::Fallback);
    assert_eq!(a.path, "/srv/index.html");
}

#[test]
fn both_resolvers_agree_on_files() {
    let fs = FileServing::new("/srv", "index.html", "/srv/missing-default");
    let m = InMemoryServing::new(memory_files(), "index.html", "/srv/missing-default", None);
    let t = tree();
    for p in ["/style.css", "/data/report.json", "/", "/docs", "/docs/", "/empty", "/nope", "/../x"] {
        let a = disk_resolve(&fs, &t, p);
        let b = m.resolve(p);
        assert_eq!(a.status, b.status, "status of {}", p);
        assert_eq!(a.mime, b.mime, "mime of {}", p);
        assert_eq!(a.data, b.data, "data of {}", p);
    }
}

#[test]
fn both_resolvers_serve_default_on_miss() {
    let fs = FileServing::new("/srv", "index.html", "/srv/index.html");
    let m = InMemoryServing::new(
        memory_files(),
        "index.html",
        "/srv/index.html",
        Some(b"<h1>home</h1>".to_vec()),
    );
    let t = tree();
    for p in ["/nope", "/empty", "/../../etc/passwd"] {
        let a = disk_resolve(&fs, &t, p);
        let b = m.resolve(p);
        assert_eq!(a.status, 200);
        assert_eq!(a.data, b"<h1>home</h1>".to_vec());
        assert_eq!(a.mime, "text/html");
        assert_eq!(a.data, b.data);
        assert_eq!(a.mime, b.mime);
        assert_eq!(a.status, b.status);
    }
}

#[test]
fn walk_collects_files_and_queues_directories() {
    let mut w = Walk::new();
    assert!(!w.is_done());
    let root = w.next_dir().unwrap();
    assert!(root.is_empty());
    assert!(w.is_done());
    w.record(vec![
        Listed { components: comps("a.txt"), is_dir: false },
        Listed { components: comps("sub"), is_dir: true },
    ]);
    let sub = w.next_dir().unwrap();
    assert_eq!(sub, comps("sub"));
    w.record(vec![Listed { components: comps("sub/b.txt"), is_dir: false }]);
    assert!(w.next_dir().is_none());
    assert_eq!(w.into_found(), vec![comps("a.txt"), comps("sub/b.txt")]);
}
