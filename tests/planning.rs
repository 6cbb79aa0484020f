use plateau_view_tool::compress::{
    archive_path, check_inputs, copy_sources, copy_target, is_skipped_name, plan_dataset,
    resolve_format, DatasetDir, DatasetPlan, Format, PrepareError,
};
use plateau_view_tool::list::{list_files, Entry};
use plateau_view_tool::order::Listed;
use plateau_view_tool::paths::{in_archive_scope, join, zip_entry_name};

const NAME: &str = "26100_kyoto-shi_city_2022_citygml_3";

fn dataset(path: &str, name: &str, parent: Option<&str>, is_dir: bool) -> DatasetDir {
    DatasetDir {
        path: path.to_string(),
        name: name.to_string(),
        parent: parent.map(|p| p.to_string()),
        is_dir,
    }
}

fn listed(dir: &str, name: &str) -> Listed {
    Listed { name: name.to_string(), path: format!("{}/{}", dir, name) }
}

fn strings(v: &[&str]) -> Vec<String> {
    v.iter().map(|s| s.to_string()).collect()
}

#[test]
fn auto_resolves_to_zip() {
    assert_eq!(resolve_format(Format::Auto), Format::Zip);
    assert_eq!(resolve_format(Format::CopyOnly), Format::CopyOnly);
    assert_eq!(resolve_format(Format::Zip), Format::Zip);
    assert_eq!(resolve_format(Format::SevenZip), Format::SevenZip);
}

#[test]
fn plan_uses_given_output() {
    let d = dataset("/data/in/x", NAME, Some("/data/in"), true);
    let plan = plan_dataset(&d, &Some("/out".to_string()), Format::Auto).unwrap();
    assert_eq!(
        plan,
        DatasetPlan {
            format: Format::Zip,
            prefix: NAME.to_string(),
            files_dir: format!("/out/{}_files", NAME),
        }
    );
}

#[test]
fn plan_falls_back_to_parent() {
    let d = dataset("/data/in/x", NAME, Some("/data/in/"), true);
    let plan = plan_dataset(&d, &None, Format::CopyOnly).unwrap();
    assert_eq!(plan.format, Format::CopyOnly);
    assert_eq!(plan.files_dir, format!("/data/in/{}_files", NAME));
}

#[test]
fn plan_without_parent_fails() {
    let d = dataset("/", "", None, true);
    assert_eq!(
        plan_dataset(&d, &None, Format::Zip),
        Err(PrepareError::NoParent("/".to_string()))
    );
}

#[test]
fn skip_list_names_produce_no_target() {
    for name in [".DS_Store", "Thumbs.db", "__MACOSX"] {
        assert!(is_skipped_name(name));
        let e = Entry::Dir((name.to_string(), format!("/in/{}", name)));
        assert_eq!(copy_target(&e, "/out"), None);
    }
    assert!(!is_skipped_name("Thumbs.db2"));
    let e = Entry::Files(("misc".to_string(), vec!["/in/a".to_string()]));
    assert_eq!(copy_target(&e, "/out"), Some("/out/misc".to_string()));
}

#[test]
fn sources_of_each_bucket_kind() {
    let misc = Entry::Files(("misc".to_string(), strings(&["/in/b", "/in/a"])));
    assert_eq!(copy_sources(&misc, None), strings(&["/in/b", "/in/a"]));

    let file = Entry::Dir(("bldg".to_string(), "/in/udx/bldg".to_string()));
    assert_eq!(copy_sources(&file, None), strings(&["/in/udx/bldg"]));

    let listing = vec![listed("/in/udx/bldg", "z.gml"), listed("/in/udx/bldg", "a.gml")];
    assert_eq!(
        copy_sources(&file, Some(listing)),
        strings(&["/in/udx/bldg/a.gml", "/in/udx/bldg/z.gml"])
    );
    assert_eq!(copy_sources(&file, Some(vec![])), Vec::<String>::new());
}

#[test]
fn archive_paths_per_format() {
    let mut plan = DatasetPlan {
        format: Format::Zip,
        prefix: NAME.to_string(),
        files_dir: format!("/out/{}_files", NAME),
    };
    let input = format!("/in/{}", NAME);
    assert_eq!(
        archive_path(&plan, &input, "bldg"),
        Some(format!("/out/{}_files/{}_bldg.zip", NAME, NAME))
    );
    plan.format = Format::SevenZip;
    assert_eq!(
        archive_path(&plan, &input, "bldg"),
        Some(format!("/in/{}/{}_bldg.7z", NAME, NAME))
    );
    plan.format = Format::CopyOnly;
    assert_eq!(archive_path(&plan, &input, "bldg"), None);
}

#[test]
fn inputs_are_all_checked_first() {
    let good = dataset("/in/a", NAME, Some("/in"), true);
    let not_dir = dataset("/in/file.txt", "file.txt", Some("/in"), false);
    let bad_name = dataset("/in/26100_kyoto", "26100_kyoto", Some("/in"), true);

    assert_eq!(check_inputs(&vec![good.clone(), good.clone()]), Ok(()));
    assert_eq!(check_inputs(&vec![]), Ok(()));
    assert_eq!(
        check_inputs(&vec![good.clone(), not_dir.clone(), bad_name.clone()]),
        Err(PrepareError::NotDirectory("/in/file.txt".to_string()))
    );
    assert_eq!(
        check_inputs(&vec![good, bad_name, not_dir]),
        Err(PrepareError::BadName("26100_kyoto".to_string()))
    );
}

#[test]
fn join_adds_one_separator() {
    assert_eq!(join("/out", "a"), "/out/a");
    assert_eq!(join("/out/", "a"), "/out/a");
    assert_eq!(join("", "a"), "a");
}

#[test]
fn zip_entry_names_are_rooted_at_the_directory() {
    assert_eq!(zip_entry_name("input", &vec![], true), "input/");
    assert_eq!(zip_entry_name("input", &strings(&["a"]), true), "input/a/");
    assert_eq!(zip_entry_name("input", &strings(&["a", "a.txt"]), false), "input/a/a.txt");
    assert_eq!(zip_entry_name("input", &strings(&["b.txt"]), false), "input/b.txt");
}

#[test]
fn archive_scope_keeps_the_target_subtree() {
    let parent = strings(&["/", "tmp", "x"]);
    let target = strings(&["/", "tmp", "x", "input"]);
    assert!(in_archive_scope(&parent, &parent, &target));
    assert!(in_archive_scope(&target, &parent, &target));
    assert!(in_archive_scope(&strings(&["/", "tmp", "x", "input", "a", "a.txt"]), &parent, &target));
    assert!(!in_archive_scope(&strings(&["/", "tmp", "x", "output.7z"]), &parent, &target));
    assert!(!in_archive_scope(&strings(&["/", "tmp", "x", "input2"]), &parent, &target));
}

#[test]
fn dataset_outputs_are_named_after_buckets() {
    let root_dir = format!("/tmp/{}", NAME);
    let udx = format!("{}/udx", root_dir);
    let root = vec![
        listed(&root_dir, "codelists"),
        listed(&root_dir, "metadata"),
        listed(&root_dir, "schemas"),
        listed(&root_dir, "specification"),
        listed(&root_dir, "udx"),
        listed(&root_dir, "26100_indexmap.pdf"),
        listed(&root_dir, "README.md"),
    ];
    let entries = list_files(root, vec![listed(&udx, "bldg"), listed(&udx, "tran")]);
    let d = dataset(&root_dir, NAME, Some("/tmp"), true);
    assert_eq!(check_inputs(&vec![d.clone()]), Ok(()));
    let plan = plan_dataset(&d, &Some("/tmp/output".to_string()), Format::Zip).unwrap();

    let mut names = vec![];
    for e in &entries {
        let target = copy_target(e, &plan.files_dir).unwrap();
        let name = target.rsplit('/').next().unwrap().to_string();
        let archive = archive_path(&plan, &root_dir, &name).unwrap();
        names.push(name);
        names.push(archive.rsplit('/').next().unwrap().to_string());
        assert!(archive.starts_with(&format!("/tmp/output/{}_files/", NAME)));
    }
    names.sort();
    assert_eq!(
        names,
        vec![
            "26100_kyoto-shi_city_2022_citygml_3_bldg.zip",
            "26100_kyoto-shi_city_2022_citygml_3_codelists.zip",
            "26100_kyoto-shi_city_2022_citygml_3_metadata.zip",
            "26100_kyoto-shi_city_2022_citygml_3_misc.zip",
            "26100_kyoto-shi_city_2022_citygml_3_schemas.zip",
            "26100_kyoto-shi_city_2022_citygml_3_specification.zip",
            "26100_kyoto-shi_city_2022_citygml_3_tran.zip",
            "bldg",
            "codelists",
            "metadata",
            "misc",
            "schemas",
            "specification",
            "tran",
        ]
    );
}
