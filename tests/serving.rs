use web_server::accept::accepts_gzip;
use web_server::path::{percent_decode, resolve, split_bytes};
use web_server::route::{Mount, Route, Site};
use web_server::store::{Action, Lookup, Probe};

/// A disk that holds the listed files and directories, and nothing else.
struct Disk {
    files: Vec<&'static str>,
    dirs: Vec<&'static str>,
}

impl Disk {
    fn probe(&self, path: &[u8]) -> Probe {
        let path = std::str::from_utf8(path).unwrap();
        if self.files.contains(&path) {
            Probe::File
        } else if self.dirs.contains(&path) {
            Probe::Dir
        } else {
            Probe::Missing
        }
    }
}

/// What the site sends for `path`: the status, the file (or body) and whether
/// it is gzip-encoded.
fn serve(site: &Site, path: &str, gzip: bool, disk: &Disk) -> (u16, String, bool) {
    let (mount, rest): (&Mount, Vec<u8>) = match site.route(path.as_bytes()) {
        Route::Greeting => {
            return (200, String::from_utf8(site.greeting.clone()).unwrap(), false);
        }
        Route::Nested { index, rest } => (&site.mounts[index], rest),
        Route::Fallback { rest } => (&site.fallback, rest),
    };
    let (mut lookup, mut action) = Lookup::start(mount, &rest, gzip);
    loop {
        match action {
            Action::Look { path } => {
                let found = disk.probe(&path);
                let (l, a) = lookup.next(found);
                lookup = l;
                action = a;
            }
            Action::Send { file, status, gzip } => {
                return (status, String::from_utf8(file).unwrap(), gzip);
            }
            Action::Empty => return (404, String::new(), false),
            Action::Fail => return (500, String::new(), false),
        }
    }
}

fn deployed_disk() -> Disk {
    Disk {
        files: vec![
            "../zola/public/index.html",
            "../zola/public/404.html",
            "../zola/public/blog/post.html",
            "../zola/public/docs/index.html",
            "../../rukaidata/root/framedata/error.html",
            "../../rukaidata/root/framedata/error.html.gz",
            "../../rukaidata/root/framedata/fox.html",
            "../../rukaidata/root/framedata/fox.html.gz",
            "../../rukaidata/root/P+/mario.html",
            "../../rukaidata/root/secret.txt",
        ],
        dirs: vec!["../zola/public", "../zola/public/docs", "../../rukaidata/root/framedata"],
    }
}

#[test]
fn greeting_on_foo() {
    let site = Site::standard();
    assert_eq!(serve(&site, "/foo", false, &deployed_disk()), (200, "Hi from /foo".to_string(), false));
}

#[test]
fn framedata_missing_file_gets_error_page() {
    let site = Site::standard();
    let (status, file, _) = serve(&site, "/framedata/nonexistent.html", false, &deployed_disk());
    assert_eq!(status, 404);
    assert_eq!(file, "../../rukaidata/root/framedata/error.html");
}

#[test]
fn pplus_missing_file_gets_framedata_error_page() {
    let site = Site::standard();
    let r = serve(&site, "/P+/luigi.html", false, &deployed_disk());
    assert_eq!(r, (404, "../../rukaidata/root/framedata/error.html".to_string(), false));
}

#[test]
fn error_page_is_gzipped_for_gzip_clients() {
    let site = Site::standard();
    let r = serve(&site, "/framedata/nonexistent.html", true, &deployed_disk());
    assert_eq!(r, (404, "../../rukaidata/root/framedata/error.html".to_string(), true));
}

#[test]
fn root_serves_index() {
    let site = Site::standard();
    let r = serve(&site, "/", false, &deployed_disk());
    assert_eq!(r, (200, "../zola/public/index.html".to_string(), false));
}

#[test]
fn directory_serves_its_index() {
    let site = Site::standard();
    let r = serve(&site, "/docs/", false, &deployed_disk());
    assert_eq!(r, (200, "../zola/public/docs/index.html".to_string(), false));
}

#[test]
fn default_store_serves_existing_file() {
    let site = Site::standard();
    let r = serve(&site, "/blog/post.html", true, &deployed_disk());
    assert_eq!(r, (200, "../zola/public/blog/post.html".to_string(), false));
}

#[test]
fn default_store_missing_file_gets_404_page() {
    let site = Site::standard();
    let r = serve(&site, "/blog/none.html", false, &deployed_disk());
    assert_eq!(r, (404, "../zola/public/404.html".to_string(), false));
}

#[test]
fn gzip_sibling_served_to_gzip_clients() {
    let site = Site::standard();
    let r = serve(&site, "/framedata/fox.html", true, &deployed_disk());
    assert_eq!(r, (200, "../../rukaidata/root/framedata/fox.html".to_string(), true));
}

#[test]
fn plain_file_served_without_gzip() {
    let site = Site::standard();
    let r = serve(&site, "/framedata/fox.html", false, &deployed_disk());
    assert_eq!(r, (200, "../../rukaidata/root/framedata/fox.html".to_string(), false));
}

#[test]
fn no_sibling_means_plain_file() {
    let site = Site::standard();
    let r = serve(&site, "/P+/mario.html", true, &deployed_disk());
    assert_eq!(r, (200, "../../rukaidata/root/P+/mario.html".to_string(), false));
}

#[test]
fn parent_segments_never_leave_the_root() {
    let site = Site::standard();
    for path in ["/framedata/../secret.txt", "/framedata/%2e%2e/secret.txt", "/framedata/a/..%2F..%2Fsecret.txt"] {
        let r = serve(&site, path, false, &deployed_disk());
        assert_eq!(r, (404, "../../rukaidata/root/framedata/error.html".to_string(), false));
    }
}

#[test]
fn missing_error_page_gives_empty_404() {
    let site = Site::standard();
    let disk = Disk { files: vec![], dirs: vec![] };
    assert_eq!(serve(&site, "/framedata/x", false, &disk), (404, String::new(), false));
}

#[test]
fn unreadable_file_gives_500() {
    let site = Site::standard();
    let mut lookup_action = Lookup::start(&site.fallback, b"/a.html", false);
    assert!(matches!(lookup_action.1, Action::Look { .. }));
    lookup_action = lookup_action.0.next(Probe::Failed);
    assert!(matches!(lookup_action.1, Action::Fail));
}

#[test]
fn near_miss_prefix_goes_to_default_store() {
    let site = Site::standard();
    assert!(matches!(site.route(b"/P+x"), Route::Fallback { .. }));
    assert!(matches!(site.route(b"/P+x/y"), Route::Fallback { .. }));
    assert!(matches!(site.route(b"/framedatas"), Route::Fallback { .. }));
    assert!(matches!(site.route(b"/foo/"), Route::Fallback { .. }));
    match site.route(b"/P+/x") {
        Route::Nested { index, rest } => {
            assert_eq!(index, 1);
            assert_eq!(rest, b"/x".to_vec());
        }
        _ => panic!("expected the P+ store"),
    }
    match site.route(b"/framedata") {
        Route::Nested { index, rest } => {
            assert_eq!(index, 0);
            assert!(rest.is_empty());
        }
        _ => panic!("expected the framedata store"),
    }
}

#[test]
fn longest_prefix_wins() {
    let mount = |p: &str| Mount {
        prefix: p.as_bytes().to_vec(),
        root: b"r".to_vec(),
        not_found: b"n".to_vec(),
        precompressed: false,
    };
    let site = Site {
        greeting_path: b"/hello".to_vec(),
        greeting: b"hi".to_vec(),
        mounts: vec![mount("/a"), mount("/a/b"), mount("/c")],
        fallback: mount(""),
    };
    match site.route(b"/a/b/c") {
        Route::Nested { index, rest } => {
            assert_eq!(index, 1);
            assert_eq!(rest, b"/c".to_vec());
        }
        _ => panic!("expected the longest prefix"),
    }
    match site.route(b"/a/bc") {
        Route::Nested { index, .. } => assert_eq!(index, 0),
        _ => panic!("expected /a"),
    }
}

#[test]
fn percent_decoding() {
    assert_eq!(percent_decode(b"a%20b%2Fc%zz%4"), b"a b/c%zz%4".to_vec());
    assert_eq!(percent_decode(b"%41%62"), b"Ab".to_vec());
    assert_eq!(percent_decode(b""), Vec::<u8>::new());
}

#[test]
fn resolving_paths() {
    assert_eq!(resolve(b"root", b"/a//./b/"), Some(b"root/a/b".to_vec()));
    assert_eq!(resolve(b"root", b""), Some(b"root".to_vec()));
    assert_eq!(resolve(b"root", b"/a%20b"), Some(b"root/a b".to_vec()));
    assert_eq!(resolve(b"root", b"/a/../b"), None);
    assert_eq!(resolve(b"root", b"/a/..."), Some(b"root/a/...".to_vec()));
}

#[test]
fn splitting() {
    assert_eq!(split_bytes(b"a,b,,c", b','), vec![b"a".to_vec(), b"b".to_vec(), vec![], b"c".to_vec()]);
    assert_eq!(split_bytes(b"", b','), vec![Vec::<u8>::new()]);
}

fn accepts(hs: &[&str]) -> bool {
    accepts_gzip(&hs.iter().map(|h| h.as_bytes().to_vec()).collect())
}

#[test]
fn accept_encoding_gzip() {
    assert!(accepts(&["gzip"]));
    assert!(accepts(&["deflate, gzip"]));
    assert!(accepts(&["br;q=1.0, GZIP ; q=0.5"]));
    assert!(accepts(&["x-gzip"]));
    assert!(accepts(&["br", "gzip;q=0.001"]));
    assert!(!accepts(&[]));
    assert!(!accepts(&["br, deflate"]));
    assert!(!accepts(&["gzip;q=0"]));
    assert!(!accepts(&["gzip;q=0.000"]));
    assert!(!accepts(&["gzip;q=1.5"]));
    assert!(!accepts(&["gzip;q=0.0001"]));
    assert!(!accepts(&["gzipx"]));
    assert!(!accepts(&["*"]));
}
