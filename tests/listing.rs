use plateau_view_tool::list::{find_extension_dir, list_files, Entry};
use plateau_view_tool::order::{sort_listing, str_lt, Listed};
use plateau_view_tool::paths::concat3;
use plateau_view_tool::text::{chars_of, str_eq};

const ROOT: &str = "/tmp/pvt-test/26100_kyoto-shi_city_2022_citygml_3";

fn listed(dir: &str, name: &str) -> Listed {
    Listed {
        name: name.to_string(),
        path: format!("{}/{}", dir, name),
    }
}

fn fixture_root() -> Vec<Listed> {
    // in the order a directory read may return them
    vec![
        listed(ROOT, "udx"),
        listed(ROOT, "README.md"),
        listed(ROOT, "specification"),
        listed(ROOT, "codelists"),
        listed(ROOT, "26100_indexmap.pdf"),
        listed(ROOT, "schemas"),
        listed(ROOT, "metadata"),
    ]
}

fn fixture_udx() -> Vec<Listed> {
    let udx = format!("{}/udx", ROOT);
    vec![listed(&udx, "tran"), listed(&udx, "bldg")]
}

fn dir(name: &str, path: String) -> Entry {
    Entry::Dir((name.to_string(), path))
}

#[test]
fn test_list_files() {
    let root = fixture_root();
    let i = find_extension_dir(&root).unwrap();
    assert_eq!(root[i].name, "udx");
    let files = list_files(root, fixture_udx());

    assert_eq!(
        files,
        vec![
            dir("codelists", format!("{}/codelists", ROOT)),
            dir("metadata", format!("{}/metadata", ROOT)),
            dir("schemas", format!("{}/schemas", ROOT)),
            dir("specification", format!("{}/specification", ROOT)),
            dir("bldg", format!("{}/udx/bldg", ROOT)),
            dir("tran", format!("{}/udx/tran", ROOT)),
            Entry::Files((
                "misc".to_string(),
                vec![
                    format!("{}/26100_indexmap.pdf", ROOT),
                    format!("{}/README.md", ROOT),
                ]
            )),
        ],
    );
}

#[test]
fn listing_order_does_not_change_buckets() {
    let mut root = fixture_root();
    root.reverse();
    let mut udx = fixture_udx();
    udx.reverse();
    let a = list_files(root, udx);
    let b = list_files(fixture_root(), fixture_udx());
    assert_eq!(a, b);
}

#[test]
fn no_misc_bucket_when_nothing_is_left_over() {
    let root = vec![listed(ROOT, "schemas"), listed(ROOT, "codelists")];
    let files = list_files(root, vec![]);
    assert_eq!(
        files,
        vec![
            dir("codelists", format!("{}/codelists", ROOT)),
            dir("schemas", format!("{}/schemas", ROOT)),
        ]
    );
}

#[test]
fn empty_root_has_no_buckets() {
    assert_eq!(list_files(vec![], vec![]), vec![]);
    assert_eq!(find_extension_dir(&vec![]), None);
}

#[test]
fn unknown_directories_go_to_misc() {
    let root = vec![listed(ROOT, "zzz"), listed(ROOT, "codelists"), listed(ROOT, "aaa")];
    assert_eq!(find_extension_dir(&root), None);
    let files = list_files(root, vec![]);
    assert_eq!(
        files,
        vec![
            dir("codelists", format!("{}/codelists", ROOT)),
            Entry::Files((
                "misc".to_string(),
                vec![format!("{}/aaa", ROOT), format!("{}/zzz", ROOT)]
            )),
        ]
    );
}

#[test]
fn empty_extension_dir_adds_no_bucket() {
    let root = vec![listed(ROOT, "udx"), listed(ROOT, "metadata")];
    let files = list_files(root, vec![]);
    assert_eq!(files, vec![dir("metadata", format!("{}/metadata", ROOT))]);
}

#[test]
fn sort_breaks_name_ties_by_path() {
    let v = vec![
        Listed { name: "b".to_string(), path: "/y/b".to_string() },
        Listed { name: "a".to_string(), path: "/z/a".to_string() },
        Listed { name: "b".to_string(), path: "/x/b".to_string() },
        Listed { name: "B".to_string(), path: "/x/B".to_string() },
    ];
    let s = sort_listing(v);
    let paths: Vec<&str> = s.iter().map(|l| l.path.as_str()).collect();
    assert_eq!(paths, vec!["/x/B", "/z/a", "/x/b", "/y/b"]);
}

#[test]
fn string_order_is_lexicographic() {
    assert!(str_lt("a", "b"));
    assert!(str_lt("ab", "abc"));
    assert!(str_lt("", "a"));
    assert!(!str_lt("abc", "abc"));
    assert!(!str_lt("b", "abc"));
    assert!(str_lt("README.md", "codelists"));
}

#[test]
fn entry_names() {
    let d = Entry::Dir(("bldg".to_string(), "/in/udx/bldg".to_string()));
    let f = Entry::Files(("misc".to_string(), vec![]));
    assert_eq!(d.name(), "bldg");
    assert_eq!(f.name(), "misc");
}

#[test]
fn text_helpers() {
    assert_eq!(chars_of("aé_1"), vec!['a', 'é', '_', '1']);
    assert_eq!(chars_of(""), Vec::<char>::new());
    assert!(str_eq("udx", "udx"));
    assert!(!str_eq("udx", "udx2"));
    assert!(!str_eq("udx", "ud"));
    assert_eq!(concat3("a", "_", "b"), "a_b");
}
