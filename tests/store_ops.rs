use tauri_plugin_site::{
    create_site, decode_site, digest_of, encode_site, is_reserved_name, load_file, load_site,
    save_file, save_site, site_key_bytes, site_names, AssetType, BatchOp, Digest, DigestAlgo,
    DigestType, Error, File, Site, Update,
};

fn temp_db() -> sled::Db {
    sled::Config::new().temporary(true).open().unwrap()
}

fn apply(db: &sled::Db, u: &Update) {
    let tree = db.open_tree(&u.namespace).unwrap();
    let mut batch = sled::Batch::default();
    for op in &u.ops {
        match op {
            BatchOp::Insert(k, v) => batch.insert(k.as_slice(), v.as_slice()),
            BatchOp::Remove(k) => batch.remove(k.as_slice()),
        }
    }
    tree.apply_batch(batch).unwrap();
}

fn read(db: &sled::Db, namespace: &str, key: &[u8]) -> Option<Vec<u8>> {
    let tree = db.open_tree(namespace.as_bytes()).unwrap();
    tree.get(key).unwrap().map(|v| v.to_vec())
}

fn fetch_file(db: &sled::Db, site: &str, digest: &str) -> Result<String, Error> {
    let stored = read(db, site, digest.as_bytes());
    load_file(site.to_string(), digest.to_string(), stored)
}

fn fetch_site(db: &sled::Db, site: &str) -> Result<Site, Error> {
    let stored = read(db, site, &site_key_bytes());
    load_site(site.to_string(), stored)
}

fn file(value: &str, asset_type: AssetType) -> File {
    File {
        digest: Digest {
            algo: DigestAlgo::SHA256,
            digest_type: DigestType::Uncompressed,
            value: value.to_string(),
        },
        asset_type,
    }
}

fn hello_hex() -> String {
    "2cf24dba5fb0a30e26e83b2ac5b9e29e1b161e5c1fa7425e73043362938b9824".to_string()
}

fn site_eq(a: &Site, b: &Site) -> bool {
    a.name == b.name
        && a.aliases == b.aliases
        && a.files.len() == b.files.len()
        && a.files.iter().zip(b.files.iter()).all(|(x, y)| {
            x.asset_type == y.asset_type
                && x.digest.value == y.digest.value
                && x.digest.algo == y.digest.algo
                && x.digest.digest_type == y.digest.digest_type
        })
}

#[test]
fn digest_of_hello_is_known_sha256() {
    let d = digest_of(b"hello");
    assert_eq!(d.value, hello_hex());
    assert_eq!(d.algo, DigestAlgo::SHA256);
    assert_eq!(d.digest_type, DigestType::Uncompressed);
}

#[test]
fn digest_is_deterministic_and_distinguishes() {
    assert_eq!(digest_of(b"body{color:red}").value, digest_of(b"body{color:red}").value);
    assert_ne!(digest_of(b"body{color:red}").value, digest_of(b"body{color:blue}").value);
    assert_eq!(digest_of(b"").value.len(), 64);
}

#[test]
fn record_round_trips_full_site() {
    let site = Site {
        name: "blog".to_string(),
        aliases: vec!["www.blog".to_string(), "ブログ".to_string()],
        files: vec![
            file(&hello_hex(), AssetType::Css),
            File {
                digest: Digest {
                    algo: DigestAlgo::SHA256,
                    digest_type: DigestType::Compressed,
                    value: "ab".to_string(),
                },
                asset_type: AssetType::Script,
            },
        ],
    };
    let bytes = encode_site(&site);
    let back = decode_site(&bytes).unwrap();
    assert!(site_eq(&site, &back));
}

#[test]
fn record_round_trips_empty_site() {
    let site = Site { name: String::new(), aliases: vec![], files: vec![] };
    let bytes = encode_site(&site);
    assert_eq!(bytes.len(), 24);
    let back = decode_site(&bytes).unwrap();
    assert!(site_eq(&site, &back));
}

#[test]
fn record_layout_of_small_site() {
    let site = Site { name: "a".to_string(), aliases: vec![], files: vec![file("f", AssetType::Html)] };
    let bytes = encode_site(&site);
    let mut expected = vec![1, 0, 0, 0, 0, 0, 0, 0, b'a'];
    expected.extend_from_slice(&[0; 8]);
    expected.extend_from_slice(&[1, 0, 0, 0, 0, 0, 0, 0]);
    expected.extend_from_slice(&[0, 0, 1, 0, 0, 0, 0, 0, 0, 0, b'f', 1]);
    assert_eq!(bytes, expected);
}

#[test]
fn malformed_records_are_rejected() {
    let site = Site { name: "x".to_string(), aliases: vec![], files: vec![] };
    let mut bytes = encode_site(&site);
    assert!(matches!(decode_site(&bytes[..bytes.len() - 1]), Err(Error::Serialization(_))));
    bytes.push(0);
    assert!(matches!(decode_site(&bytes), Err(Error::Serialization(_))));
    assert!(matches!(decode_site(&[]), Err(Error::Serialization(_))));
    let bad_utf8 = vec![1, 0, 0, 0, 0, 0, 0, 0, 0xff, 0, 0, 0, 0, 0, 0, 0, 0, 0, 0, 0, 0, 0, 0, 0, 0];
    assert!(matches!(decode_site(&bad_utf8), Err(Error::Serialization(_))));
    let bad_tag = Site { name: "y".to_string(), aliases: vec![], files: vec![file("f", AssetType::Css)] };
    let mut tagged = encode_site(&bad_tag);
    let last = tagged.len() - 1;
    tagged[last] = 9;
    assert!(matches!(decode_site(&tagged), Err(Error::Serialization(_))));
}

#[test]
fn blog_scenario_supersedes_css() {
    let db = temp_db();
    let created = create_site("blog".to_string());
    apply(&db, &created);
    let site = created.site;
    assert!(site.files.is_empty() && site.aliases.is_empty());

    let first = save_file(site, "body{color:red}".to_string(), AssetType::Css);
    apply(&db, &first);
    assert_eq!(first.site.files.len(), 1);
    assert_eq!(first.site.files[0].asset_type, AssetType::Css);
    let red = digest_of(b"body{color:red}").value;
    assert_eq!(first.site.files[0].digest.value, red);
    assert_eq!(fetch_file(&db, "blog", &red).unwrap(), "body{color:red}");

    let second = save_file(first.site, "body{color:blue}".to_string(), AssetType::Css);
    apply(&db, &second);
    let blue = digest_of(b"body{color:blue}").value;
    assert_eq!(second.site.files.len(), 1);
    assert_eq!(second.site.files[0].digest.value, blue);
    assert_eq!(fetch_file(&db, "blog", &blue).unwrap(), "body{color:blue}");
    assert!(matches!(
        fetch_file(&db, "blog", &red),
        Err(Error::NoSuchFileInThisSite(d, s)) if d == red && s == "blog"
    ));
    let stored = fetch_site(&db, "blog").unwrap();
    assert!(site_eq(&stored, &second.site));
}

#[test]
fn one_file_per_asset_type() {
    let site = create_site("s".to_string()).site;
    let u = save_file(site, "a".to_string(), AssetType::Css);
    let u = save_file(u.site, "b".to_string(), AssetType::Html);
    let u = save_file(u.site, "c".to_string(), AssetType::Css);
    let u = save_file(u.site, "d".to_string(), AssetType::Script);
    let types: Vec<AssetType> = u.site.files.iter().map(|f| f.asset_type).collect();
    assert_eq!(types, vec![AssetType::Html, AssetType::Css, AssetType::Script]);
    assert_eq!(u.site.files[1].digest.value, digest_of(b"c").value);
}

#[test]
fn duplicate_stale_files_are_all_removed() {
    let site = Site {
        name: "dup".to_string(),
        aliases: vec![],
        files: vec![file("old1", AssetType::Css), file("keep", AssetType::Html), file("old2", AssetType::Css)],
    };
    let u = save_file(site, "new".to_string(), AssetType::Css);
    assert_eq!(u.namespace, b"dup".to_vec());
    assert_eq!(u.ops.len(), 4);
    assert!(matches!(&u.ops[0], BatchOp::Remove(k) if k == b"old1"));
    assert!(matches!(&u.ops[1], BatchOp::Remove(k) if k == b"old2"));
    let new_digest = digest_of(b"new").value;
    assert!(matches!(&u.ops[2], BatchOp::Insert(k, v) if *k == new_digest.as_bytes().to_vec() && v == b"new"));
    assert!(matches!(&u.ops[3], BatchOp::Insert(k, v) if k == b"site" && *v == encode_site(&u.site)));
    assert_eq!(u.site.files.len(), 2);
    assert_eq!(u.site.files[0].digest.value, "keep");
}

#[test]
fn saving_to_one_site_leaves_another_alone() {
    let db = temp_db();
    let a = create_site("a".to_string());
    let b = create_site("b".to_string());
    apply(&db, &a);
    apply(&db, &b);
    let b_saved = save_file(b.site, "shared".to_string(), AssetType::Css);
    apply(&db, &b_saved);
    let before: Vec<_> = db.open_tree("b").unwrap().iter().map(|kv| kv.unwrap()).collect();
    let a1 = save_file(a.site, "shared".to_string(), AssetType::Css);
    apply(&db, &a1);
    let a2 = save_file(a1.site, "other".to_string(), AssetType::Css);
    apply(&db, &a2);
    let after: Vec<_> = db.open_tree("b").unwrap().iter().map(|kv| kv.unwrap()).collect();
    assert_eq!(before, after);
    let shared = digest_of(b"shared").value;
    assert_eq!(fetch_file(&db, "b", &shared).unwrap(), "shared");
    assert!(fetch_file(&db, "a", &shared).is_err());
}

#[test]
fn save_site_stores_the_record() {
    let db = temp_db();
    let site = Site { name: "docs".to_string(), aliases: vec!["d".to_string()], files: vec![] };
    let u = save_site(site);
    assert_eq!(u.ops.len(), 1);
    apply(&db, &u);
    let back = fetch_site(&db, "docs").unwrap();
    assert!(site_eq(&back, &u.site));
}

#[test]
fn create_site_resets_existing_record() {
    let db = temp_db();
    let u = save_site(Site { name: "r".to_string(), aliases: vec!["x".to_string()], files: vec![] });
    apply(&db, &u);
    apply(&db, &create_site("r".to_string()));
    let back = fetch_site(&db, "r").unwrap();
    assert!(back.aliases.is_empty() && back.files.is_empty());
}

#[test]
fn missing_site_is_reported() {
    let db = temp_db();
    assert!(matches!(
        fetch_site(&db, "nonexistent"),
        Err(Error::NoSiteWithNameFound(n)) if n == "nonexistent"
    ));
}

#[test]
fn corrupt_site_record_is_serialization_error() {
    assert!(matches!(
        load_site("x".to_string(), Some(vec![1, 2, 3])),
        Err(Error::Serialization(_))
    ));
}

#[test]
fn missing_file_is_reported() {
    let db = temp_db();
    apply(&db, &create_site("existing_site".to_string()));
    assert!(matches!(
        fetch_file(&db, "existing_site", "deadbeef"),
        Err(Error::NoSuchFileInThisSite(d, s)) if d == "deadbeef" && s == "existing_site"
    ));
}

#[test]
fn invalid_utf8_blob_is_rejected() {
    let r = load_file("s".to_string(), "k".to_string(), Some(vec![0xc3, 0x28]));
    assert!(matches!(r, Err(Error::NotValidUTF8(_))));
    let ok = load_file("s".to_string(), "k".to_string(), Some("héllo".as_bytes().to_vec()));
    assert_eq!(ok.unwrap(), "héllo");
}

#[test]
fn registry_excludes_engine_namespace() {
    let db = temp_db();
    apply(&db, &create_site("blog".to_string()));
    let site = create_site("shop".to_string()).site;
    apply(&db, &save_file(site, "x".to_string(), AssetType::Html));
    let names: Vec<Vec<u8>> = db.tree_names().into_iter().map(|n| n.to_vec()).collect();
    let mut sites = site_names(names);
    sites.sort();
    assert_eq!(sites, vec!["blog".to_string(), "shop".to_string()]);
}

#[test]
fn registry_decodes_lossily() {
    let names = vec![b"__sled__default".to_vec(), vec![b'a', 0xff], b"ok".to_vec(), b"__sledx".to_vec()];
    let sites = site_names(names);
    assert_eq!(sites, vec!["a\u{fffd}".to_string(), "ok".to_string()]);
}

#[test]
fn reserved_prefix_detection() {
    assert!(is_reserved_name("__sled__default"));
    assert!(is_reserved_name("__sled"));
    assert!(!is_reserved_name("__sle"));
    assert!(!is_reserved_name("blog"));
    assert!(!is_reserved_name("x__sled"));
}
