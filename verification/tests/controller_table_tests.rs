use regmsg::controller::{
    add_sdl_controller_config, find_in_gamecontroller_db, get_sdl_controller_config,
    is_controller_configured, line_mapping, parse_controller_mapping_data,
    remove_sdl_controller_config, ControllerConfig,
};

const GUID: &str = "030000005e0400008e02000010010000";
const MAPPING: &str = "Xbox 360 Controller,a:b0,b:b1,platform:Linux";

#[test]
fn mapping_data_splits_into_name_and_inputs() {
    let (name, inputs) = parse_controller_mapping_data(MAPPING);
    assert_eq!(name, "Xbox 360 Controller");
    assert_eq!(
        inputs,
        vec![
            ("a".to_string(), "b0".to_string()),
            ("b".to_string(), "b1".to_string()),
            ("platform".to_string(), "Linux".to_string())
        ]
    );
    let (name, inputs) = parse_controller_mapping_data("Pad,nocolon,a:b0,a:b9,x:a:b");
    assert_eq!(name, "Pad");
    assert_eq!(
        inputs,
        vec![("a".to_string(), "b9".to_string()), ("x".to_string(), "a:b".to_string())]
    );
    let (name, inputs) = parse_controller_mapping_data("");
    assert_eq!(name, "");
    assert!(inputs.is_empty());
}

#[test]
fn database_lines_give_the_mapping_after_the_guid() {
    let line = format!("{},{}", GUID, MAPPING);
    assert_eq!(line_mapping(&line, GUID), Some(MAPPING.to_string()));
    assert_eq!(line_mapping(&line, "other"), None);
    assert_eq!(line_mapping(&format!("#{}", line), GUID), None);
    assert_eq!(line_mapping("   ", GUID), None);
    assert_eq!(line_mapping(&format!("{},Name", GUID), GUID), None);
    let lines = vec![
        "# comment".to_string(),
        format!("{},First,a:b0", GUID),
        format!("{},Second,a:b1", GUID),
    ];
    assert_eq!(
        find_in_gamecontroller_db(&lines, GUID),
        Some("First,a:b0".to_string())
    );
    assert_eq!(find_in_gamecontroller_db(&lines, "nope"), None);
}

#[test]
fn an_added_controller_is_configured_as_described() {
    let mut config = ControllerConfig::new();
    let added = add_sdl_controller_config(&mut config, 3, GUID, Some(MAPPING)).unwrap();
    assert_eq!(added.unwrap().name, "Xbox 360 Controller");
    assert!(is_controller_configured(&config, 3));
    let table = get_sdl_controller_config(&config);
    assert_eq!(table.len(), 1);
    assert_eq!(table[&3].guid, GUID);
    assert_eq!(table[&3].inputs.len(), 3);
    // An index already configured is left as it is.
    assert!(add_sdl_controller_config(&mut config, 3, "other", Some("Other,a:b0"))
        .unwrap()
        .is_none());
    assert_eq!(get_sdl_controller_config(&config)[&3].guid, GUID);
    // No mapping, no controller.
    assert!(add_sdl_controller_config(&mut config, 4, GUID, None).unwrap().is_none());
    assert!(!is_controller_configured(&config, 4));
}

#[test]
fn the_table_holds_at_most_eight_controllers() {
    let mut config = ControllerConfig::new();
    for i in 0..8 {
        assert!(add_sdl_controller_config(&mut config, i, GUID, Some(MAPPING))
            .unwrap()
            .is_some());
    }
    assert_eq!(
        add_sdl_controller_config(&mut config, 8, GUID, Some(MAPPING)).unwrap_err(),
        "Maximum number of controllers (8) reached. Cannot add more."
    );
    assert_eq!(config.len(), 8);
    assert_eq!(get_sdl_controller_config(&config).len(), 8);
}

#[test]
fn removing_a_guid_leaves_the_others() {
    let mut config = ControllerConfig::new();
    add_sdl_controller_config(&mut config, 0, "g1", Some("One,a:b0")).unwrap();
    add_sdl_controller_config(&mut config, 1, "g2", Some("Two,a:b0")).unwrap();
    add_sdl_controller_config(&mut config, 2, "g1", Some("Three,a:b0")).unwrap();
    let removed = remove_sdl_controller_config(&mut config, Some("g1")).unwrap();
    let names: Vec<String> = removed.iter().map(|c| c.name.clone()).collect();
    assert_eq!(names, vec!["One", "Three"]);
    assert!(!is_controller_configured(&config, 0));
    assert!(is_controller_configured(&config, 1));
    let left = get_sdl_controller_config(&config);
    assert_eq!(left.len(), 1);
    assert_eq!(left[&1].name, "Two");
    assert!(remove_sdl_controller_config(&mut config, Some("g1")).unwrap().is_empty());
    let all = remove_sdl_controller_config(&mut config, None).unwrap();
    assert_eq!(all.len(), 1);
    assert_eq!(config.len(), 0);
    assert!(get_sdl_controller_config(&config).is_empty());
}
