use roast::cli::export::get_filter_map;
use roast::cli::export::vendor::Vendor as ExportVendor;
use roast::cli::fetch::{Fetch, MergeResult, SourceOutcome};
use roast::cli::ls;
use roast::jvm::{FetchError, FieldValue, JvmData};

fn sample_record(vendor: &str, version: &str, features: Option<Vec<String>>) -> JvmData {
    JvmData {
        architecture: "x86_64".to_string(),
        checksum: Some("sha256:abc".to_string()),
        checksum_url: Some("https://example.invalid/a.sha256".to_string()),
        features,
        file_type: "tar.gz".to_string(),
        filename: format!("{vendor}-{version}.tar.gz"),
        image_type: "jdk".to_string(),
        java_version: version.to_string(),
        jvm_impl: "hotspot".to_string(),
        os: "linux".to_string(),
        release_type: "ga".to_string(),
        size: Some(42),
        url: format!("https://example.invalid/{vendor}-{version}.tar.gz"),
        vendor: vendor.to_string(),
        version: version.to_string(),
    }
}

#[test]
fn get_vendors_empty_selection_selects_all() {
    let fetch = Fetch { vendors: vec![] };
    assert_eq!(fetch.get_vendors(), vec!["liberica-nik".to_string(), "oracle".to_string()]);
}

#[test]
fn get_vendors_filters_by_request() {
    let fetch = Fetch { vendors: vec!["oracle".to_string()] };
    assert_eq!(fetch.get_vendors(), vec!["oracle".to_string()]);
}

#[test]
fn get_vendors_ignores_unknown_names() {
    let fetch = Fetch { vendors: vec!["oracle".to_string(), "unknown".to_string()] };
    assert_eq!(fetch.get_vendors(), vec!["oracle".to_string()]);
}

#[test]
fn merge_deduplicates_identical_records() {
    let outcomes = vec![SourceOutcome {
        name: "oracle".to_string(),
        result: Ok(vec![
            sample_record("oracle", "17.0.7", None),
            sample_record("oracle", "17.0.7", None),
        ]),
    }];
    let MergeResult { records, failed } = Fetch::merge_outcomes(outcomes);
    assert_eq!(records.len(), 1);
    assert!(failed.is_empty());
}

#[test]
fn merge_deduplicates_across_sources() {
    let outcomes = vec![
        SourceOutcome {
            name: "a".to_string(),
            result: Ok(vec![sample_record("oracle", "21", None)]),
        },
        SourceOutcome {
            name: "b".to_string(),
            result: Ok(vec![sample_record("oracle", "21", None)]),
        },
    ];
    let merged = Fetch::merge_outcomes(outcomes);
    assert_eq!(merged.records.len(), 1);
}

#[test]
fn merge_keeps_distinct_records() {
    let outcomes = vec![SourceOutcome {
        name: "oracle".to_string(),
        result: Ok(vec![
            sample_record("oracle", "17.0.7", None),
            sample_record("oracle", "21.0.1", None),
        ]),
    }];
    let merged = Fetch::merge_outcomes(outcomes);
    assert_eq!(merged.records.len(), 2);
}

#[test]
fn merge_survives_partial_failure() {
    let outcomes = vec![
        SourceOutcome {
            name: "alpha".to_string(),
            result: Ok(vec![sample_record("alpha", "11", None)]),
        },
        SourceOutcome {
            name: "beta".to_string(),
            result: Err(FetchError { message: "connection refused".to_string() }),
        },
        SourceOutcome {
            name: "gamma".to_string(),
            result: Ok(vec![sample_record("gamma", "17", None)]),
        },
    ];
    let merged = Fetch::merge_outcomes(outcomes);
    assert_eq!(merged.records.len(), 2);
    let vendors: Vec<&str> = merged.records.iter().map(|r| r.vendor.as_str()).collect();
    assert!(vendors.contains(&"alpha"));
    assert!(vendors.contains(&"gamma"));
    assert!(!vendors.contains(&"beta"));
    assert_eq!(merged.failed, vec!["beta".to_string()]);
}

#[test]
fn ls_arch_and_os_list_every_distinct_value() {
    let lines = ls::Ls { command: ls::Commands::Arch(ls::arch::Arch {}) }
        .run(vec!["x86_64".to_string(), "aarch64".to_string()]);
    assert_eq!(lines, vec!["x86_64".to_string(), "aarch64".to_string()]);
    let lines = ls::Ls { command: ls::Commands::Os(ls::os::Os {}) }
        .run(vec!["linux".to_string()]);
    assert_eq!(lines, vec!["linux".to_string()]);
}

#[test]
fn ls_vendor_skips_unsupported_vendors() {
    let lines = ls::Ls { command: ls::Commands::Vendor(ls::vendors::Vendor {}) }
        .run(vec!["oracle".to_string(), "foo".to_string(), "liberica-nik".to_string()]);
    assert_eq!(lines, vec!["oracle".to_string(), "liberica-nik".to_string()]);
}

#[test]
fn ls_commands_name_their_store_field() {
    assert_eq!(ls::Commands::Arch(ls::arch::Arch {}).field(), "architecture");
    assert_eq!(ls::Commands::Os(ls::os::Os {}).field(), "os");
    assert_eq!(ls::Commands::Vendor(ls::vendors::Vendor {}).field(), "vendor");
}

#[test]
fn filter_map_parses_key_value_groups() {
    let fm = get_filter_map(vec![
        "file_type=tar.gz,zip".to_string(),
        "nonsense".to_string(),
        "features=musl".to_string(),
    ]);
    assert_eq!(fm.len(), 2);
    assert_eq!(fm[0].0, "file_type");
    assert_eq!(fm[0].1, vec!["tar.gz".to_string(), "zip".to_string()]);
    assert_eq!(fm[1].0, "features");
    assert_eq!(fm[1].1, vec!["musl".to_string()]);
}

#[test]
fn filter_matches_features_by_intersection() {
    let record = sample_record("oracle", "21", Some(vec!["musl".to_string()]));
    let musl = get_filter_map(vec!["features=musl".to_string()]);
    let musl_or_lite = get_filter_map(vec!["features=musl,lite".to_string()]);
    let javafx = get_filter_map(vec!["features=javafx".to_string()]);
    assert!(JvmData::filter(&record, &musl));
    assert!(JvmData::filter(&record, &musl_or_lite));
    assert!(!JvmData::filter(&record, &javafx));
}

#[test]
fn filter_is_conjunctive_over_keys() {
    let record = sample_record("oracle", "21", None);
    let both = get_filter_map(vec!["vendor=oracle".to_string(), "os=linux".to_string()]);
    let one_wrong = get_filter_map(vec!["vendor=oracle".to_string(), "os=windows".to_string()]);
    assert!(JvmData::filter(&record, &both));
    assert!(!JvmData::filter(&record, &one_wrong));
}

#[test]
fn filter_without_value_for_key_never_matches() {
    let record = sample_record("oracle", "21", None);
    let features = get_filter_map(vec!["features=musl".to_string()]);
    let unknown = get_filter_map(vec!["color=red".to_string()]);
    assert!(!JvmData::filter(&record, &features));
    assert!(!JvmData::filter(&record, &unknown));
}

#[test]
fn map_emits_all_present_fields_by_default() {
    let record = sample_record("oracle", "21", None);
    let fields = JvmData::map(&record, &vec![], &vec![]);
    let names: Vec<&str> = fields.iter().map(|f| f.name.as_str()).collect();
    assert_eq!(
        names,
        vec![
            "architecture",
            "checksum",
            "checksum_url",
            "file_type",
            "filename",
            "image_type",
            "java_version",
            "jvm_impl",
            "os",
            "release_type",
            "size",
            "url",
            "vendor",
            "version",
        ]
    );
}

#[test]
fn map_keep_list_restricts_fields_and_wins_over_exclude() {
    let record = sample_record("oracle", "21", None);
    let keep = vec!["vendor".to_string(), "version".to_string()];
    let exclude = vec!["vendor".to_string()];
    let fields = JvmData::map(&record, &keep, &exclude);
    let names: Vec<&str> = fields.iter().map(|f| f.name.as_str()).collect();
    assert_eq!(names, vec!["vendor", "version"]);
    match &fields[1].value {
        FieldValue::Text(v) => assert_eq!(v, "21"),
        _ => panic!("expected a text value"),
    }
}

#[test]
fn map_exclude_list_removes_fields() {
    let record = sample_record("oracle", "21", None);
    let exclude = vec!["checksum".to_string(), "checksum_url".to_string()];
    let fields = JvmData::map(&record, &vec![], &exclude);
    assert!(fields.iter().all(|f| f.name != "checksum" && f.name != "checksum_url"));
    assert!(fields.iter().any(|f| f.name == "vendor"));
}

#[test]
fn partitions_cross_every_selection() {
    let cmd = ExportVendor {
        vendors: Some(vec!["a".to_string(), "b".to_string()]),
        os: None,
        arch: Some(vec!["x86_64".to_string(), "aarch64".to_string()]),
        keep: None,
        exclude: None,
        filters: None,
        pretty: false,
    };
    let parts = cmd.partitions(
        vec!["ignored".to_string()],
        vec!["linux".to_string()],
        vec!["ignored".to_string()],
    );
    assert_eq!(parts.len(), 4);
    assert_eq!(parts[0].vendor, "a");
    assert_eq!(parts[0].os, "linux");
    assert_eq!(parts[0].arch, "x86_64");
    assert_eq!(parts[1].arch, "aarch64");
    assert_eq!(parts[2].vendor, "b");
    assert_eq!(parts[3].arch, "aarch64");
}

#[test]
fn partitions_empty_selection_gives_no_partitions() {
    let cmd = ExportVendor {
        vendors: Some(vec![]),
        os: None,
        arch: None,
        keep: None,
        exclude: None,
        filters: None,
        pretty: false,
    };
    let parts = cmd.partitions(
        vec!["a".to_string()],
        vec!["linux".to_string()],
        vec!["x86_64".to_string()],
    );
    assert!(parts.is_empty());
}

#[test]
fn project_partition_filters_then_projects() {
    let data = vec![
        sample_record("oracle", "21", Some(vec!["musl".to_string()])),
        sample_record("oracle", "17", None),
    ];
    let filters = get_filter_map(vec!["features=musl".to_string()]);
    let rows = ExportVendor::project_partition(
        &data,
        &filters,
        &vec!["version".to_string()],
        &vec![],
    );
    assert_eq!(rows.len(), 1);
    assert_eq!(rows[0].len(), 1);
    assert_eq!(rows[0][0].name, "version");
    match &rows[0][0].value {
        FieldValue::Text(v) => assert_eq!(v, "21"),
        _ => panic!("expected a text value"),
    }
}

#[test]
fn records_compare_structurally() {
    let a = sample_record("oracle", "21", Some(vec!["musl".to_string()]));
    let b = sample_record("oracle", "21", Some(vec!["musl".to_string()]));
    let c = sample_record("oracle", "22", Some(vec!["musl".to_string()]));
    assert!(a.same_record(&b));
    assert!(!a.same_record(&c));
    let d = a.clone_record();
    assert!(a.same_record(&d));
}

#[test]
fn map_emits_features_and_size_values() {
    let record = sample_record("oracle", "21", Some(vec!["musl".to_string()]));
    let fields = JvmData::map(&record, &vec![], &vec![]);
    let features = fields.iter().find(|f| f.name == "features").expect("features field");
    match &features.value {
        FieldValue::Tags(tags) => assert_eq!(tags, &vec!["musl".to_string()]),
        _ => panic!("expected a tag list"),
    }
    let size = fields.iter().find(|f| f.name == "size").expect("size field");
    match &size.value {
        FieldValue::Number(n) => assert_eq!(*n, 42),
        _ => panic!("expected a number"),
    }
}

#[test]
fn merge_of_no_outcomes_is_empty() {
    let merged = Fetch::merge_outcomes(vec![]);
    assert!(merged.records.is_empty());
    assert!(merged.failed.is_empty());
}

#[test]
fn filter_with_no_keys_matches_everything() {
    let record = sample_record("oracle", "21", None);
    assert!(JvmData::filter(&record, &get_filter_map(vec![])));
}

#[test]
fn split_str_keeps_empty_segments() {
    let parts = roast::text::split_str("a--b-", '-');
    assert_eq!(parts, vec!["a".to_string(), "".to_string(), "b".to_string(), "".to_string()]);
}

#[test]
fn commands_carry_their_arguments() {
    let command = roast::cli::Commands::Fetch(Fetch { vendors: vec!["oracle".to_string()] });
    match command {
        roast::cli::Commands::Fetch(f) => assert_eq!(f.vendors, vec!["oracle".to_string()]),
        _ => panic!("expected the fetch command"),
    }
    let export = roast::cli::export::Export {
        command: roast::cli::export::Commands::Vendor(ExportVendor {
            vendors: None,
            os: None,
            arch: None,
            keep: None,
            exclude: None,
            filters: None,
            pretty: true,
        }),
    };
    match export.command {
        roast::cli::export::Commands::Vendor(v) => assert!(v.pretty),
    }
}
