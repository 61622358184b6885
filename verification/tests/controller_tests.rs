use regmsg::controller::{
    add_sdl_controller_config, find_in_gamecontroller_db, get_sdl_controller_config,
    is_controller_configured, remove_sdl_controller_config, Controller, ControllerConfig,
};

/// The database lookup of these tests: no database file is installed.
fn lookup(guid: &str) -> Option<String> {
    let no_lines: Vec<String> = Vec::new();
    find_in_gamecontroller_db(&no_lines, guid)
}

fn add(config: &mut ControllerConfig, index: usize, guid: &str) -> Result<Option<Controller>, String> {
    let mapping = lookup(guid);
    add_sdl_controller_config(config, index, guid, mapping.as_deref())
}

fn clear(config: &mut ControllerConfig) {
    let configured: Vec<String> = get_sdl_controller_config(config)
        .values()
        .map(|c| c.guid.clone())
        .collect();
    for guid in configured {
        let _ = remove_sdl_controller_config(config, Some(&guid));
    }
}

#[test]
fn test_find_gamecontroller_db_with_nonexistent_guid() {
    let result = lookup("00000000000000000000000000000000");
    assert!(result.is_none());
}

#[test]
fn test_find_gamecontroller_db_with_empty_guid() {
    let result = lookup("");
    assert!(result.is_none());
}

#[test]
fn test_add_remove_multiple_controllers() {
    let mut config = ControllerConfig::new();
    let guids: Vec<String> = (0..8).map(|i| format!("{:032x}", i)).collect();
    for (index, guid) in guids.iter().enumerate() {
        let result = add(&mut config, index, guid);
        assert!(result.is_ok());
    }
    let all_configs = get_sdl_controller_config(&config);
    assert!(all_configs.len() <= 8);
}

#[test]
fn test_add_controllers_exceeds_limit() {
    let mut config = ControllerConfig::new();
    let guids: Vec<String> = (0..8).map(|i| format!("{:032x}", i)).collect();
    for (index, guid) in guids.iter().enumerate() {
        let result = add(&mut config, index, guid);
        assert!(result.is_ok());
    }
    let all_configs = get_sdl_controller_config(&config);
    assert!(all_configs.len() <= 8);
    let extra_guid = format!("{:032x}", 8);
    let _result = add(&mut config, 8, &extra_guid);
}

#[test]
fn test_get_all_sdl_controller_configs_empty() {
    let mut config = ControllerConfig::new();
    clear(&mut config);
    let all_configs = get_sdl_controller_config(&config);
    assert!(all_configs.is_empty());
}

#[test]
fn test_export_sdl_controller_configs_empty() {
    let mut config = ControllerConfig::new();
    clear(&mut config);
    let configs = get_sdl_controller_config(&config);
    let exported = configs
        .iter()
        .map(|(_index, controller)| format!("{},{}", controller.guid, "mapping_data"))
        .collect::<Vec<String>>()
        .join("\n");
    assert!(exported.is_empty());
}

#[test]
fn test_get_all_sdl_controller_configs_struct_empty() {
    let mut config = ControllerConfig::new();
    clear(&mut config);
    let all_configs = get_sdl_controller_config(&config);
    assert!(all_configs.is_empty());
}

#[test]
fn test_export_sdl_controller_configs_struct_empty() {
    let mut config = ControllerConfig::new();
    clear(&mut config);
    let configs = get_sdl_controller_config(&config);
    let exported = configs
        .iter()
        .map(|(_index, controller)| format!("{},{}", controller.guid, "mapping_data"))
        .collect::<Vec<String>>()
        .join("\n");
    assert!(exported.is_empty());
}

#[test]
fn test_controller_struct_creation() {
    let guid = "030000005e0400008e02000010010000".to_string();
    let inputs = vec![
        ("a".to_string(), "b0".to_string()),
        ("b".to_string(), "b1".to_string()),
        ("back".to_string(), "b6".to_string()),
    ];
    let controller = Controller { guid: guid.clone(), name: "Test Controller".to_string(), inputs };
    assert_eq!(controller.guid, guid);
    assert_eq!(controller.name, "Test Controller");
}

#[test]
fn test_export_sdl_controller_configs_struct_format() {
    let mut config = ControllerConfig::new();
    clear(&mut config);
    let test_index = 0;
    let guid = "030000005e0400008e02000010010000";
    let _ = add(&mut config, test_index, guid);
    let configs = get_sdl_controller_config(&config);
    let exported = configs
        .iter()
        .map(|(_index, controller)| format!("{},{}", controller.guid, "mapping_data"))
        .collect::<Vec<String>>()
        .join("\n");
    if !exported.is_empty() {
        let lines: Vec<&str> = exported.lines().collect();
        for line in lines {
            assert!(line.contains(','));
        }
    }
}

#[test]
fn test_add_single_controller() {
    let mut config = ControllerConfig::new();
    let guid = "030000005e0400008e02000010010000";
    let index = 0;
    let result = add(&mut config, index, guid);
    match result {
        Ok(Some(controller)) => {
            assert_eq!(controller.guid, guid);
            assert!(is_controller_configured(&config, index));
        }
        Ok(None) => {}
        Err(_) => panic!("add_sdl_controller_config returned an error"),
    }
}

#[test]
fn test_remove_single_controller() {
    let mut config = ControllerConfig::new();
    let test_guid = "030000005e0400008e02000010010000";
    let test_index = 0;
    let controller_exists_in_db = lookup(test_guid).is_some();
    if controller_exists_in_db {
        let _ = add(&mut config, test_index, test_guid);
        assert!(is_controller_configured(&config, test_index));
        let result = remove_sdl_controller_config(&mut config, Some(test_guid));
        assert!(result.is_ok());
        assert!(!is_controller_configured(&config, test_index));
    } else {
        let result = remove_sdl_controller_config(&mut config, Some(test_guid));
        assert!(result.is_ok());
    }
}

#[test]
fn test_get_sdl_controller_config_returns_all() {
    let mut config = ControllerConfig::new();
    let _ = remove_sdl_controller_config(&mut config, None);
    let test_guid1 = "030000005e0400008e02000010010000";
    let test_guid2 = "0500000058626f782033363020576900";
    let _ = add(&mut config, 0, test_guid1);
    let _ = add(&mut config, 1, test_guid2);
    let all_configs = get_sdl_controller_config(&config);
    let existing_configs_count = all_configs
        .iter()
        .filter(|(_index, c)| c.guid == test_guid1 || c.guid == test_guid2)
        .count();
    assert!(all_configs.len() >= existing_configs_count);
}

#[test]
fn test_get_sdl_controller_config_empty() {
    let mut config = ControllerConfig::new();
    let _ = remove_sdl_controller_config(&mut config, None);
    let configs = get_sdl_controller_config(&config);
    assert_eq!(configs.len(), 0);
}

#[test]
fn test_remove_all_controllers_with_none_parameter() {
    let mut config = ControllerConfig::new();
    let test_guid1 = "030000005e0400008e02000010010000";
    let test_guid2 = "0500000058626f782033363020576900";
    let _ = add(&mut config, 0, test_guid1);
    let _ = add(&mut config, 1, test_guid2);
    let configs_before = get_sdl_controller_config(&config);
    let _initial_count = configs_before.len();
    let result = remove_sdl_controller_config(&mut config, None);
    assert!(result.is_ok());
    let configs_after = get_sdl_controller_config(&config);
    assert_eq!(configs_after.len(), 0);
    let _ = add(&mut config, 0, test_guid1);
    let _ = add(&mut config, 1, test_guid2);
}

#[test]
fn test_add_sdl_controller_config_returns_option() {
    let mut config = ControllerConfig::new();
    let test_guid = "030000005e0400008e02000010010000";
    let test_index = 0;
    let result = add(&mut config, test_index, test_guid);
    assert!(result.is_ok());
    let result_clone = result.as_ref();
    match result_clone.unwrap() {
        Some(controller) => {
            assert_eq!(controller.guid, test_guid);
        }
        None => {}
    }
    if result.unwrap().is_some() {
        assert!(is_controller_configured(&config, test_index));
    }
}
