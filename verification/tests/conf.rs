use hybrid_mount::conf::{
    config_file, handle_gen_config, handle_lkm_clear_kmi, handle_lkm_set_autoload,
    handle_lkm_set_kmi, hymofs_config_layout, hymofs_layout_from_keys, hymofs_sidecar_path_for,
    load_config, main_config_source, ConfigSource, HymofsLayout, HymofsLayoutError,
    MainConfigSource,
};
use hybrid_mount::config::Config;

#[test]
fn gen_config_refuses_existing_file_without_force() {
    let r = handle_gen_config("/tmp/c.toml", true, false);
    assert_eq!(
        r.err(),
        Some("Config already exists at /tmp/c.toml. Use --force to overwrite.".to_string())
    );
    let c = handle_gen_config("/tmp/c.toml", true, true).unwrap();
    assert!(c.partitions.is_empty());
    assert!(!c.hymofs.enabled);
    assert!(handle_gen_config("/tmp/c.toml", false, false).is_ok());
}

#[test]
fn load_config_prefers_custom_then_default_file() {
    assert_eq!(load_config(Some("/x.toml"), true), ConfigSource::Custom("/x.toml".to_string()));
    assert_eq!(load_config(None, true), ConfigSource::DefaultFile);
    assert_eq!(load_config(None, false), ConfigSource::BuiltinDefault);
    assert_eq!(config_file(), "/data/adb/hybrid-mount/config.toml");
}

#[test]
fn main_config_source_cases() {
    assert_eq!(main_config_source(true, false), MainConfigSource::ReadFile);
    assert_eq!(main_config_source(false, true), MainConfigSource::Defaults);
    assert_eq!(main_config_source(false, false), MainConfigSource::Missing);
}

#[test]
fn sidecar_sits_beside_the_main_file() {
    for p in ["/data/adb/hybrid-mount/config.toml", "config.toml", "/config.toml", "a/b/", "", "/"] {
        let expected = std::path::Path::new(p)
            .parent()
            .unwrap_or_else(|| std::path::Path::new("."))
            .join("hymofs.toml");
        assert_eq!(hymofs_sidecar_path_for(p), expected.to_str().unwrap(), "input {:?}", p);
    }
}

#[test]
fn hymofs_file_layouts() {
    assert_eq!(hymofs_config_layout("  \n\t"), Ok(HymofsLayout::Empty));
    assert_eq!(hymofs_config_layout("[hymofs]\nenabled = true\n"), Ok(HymofsLayout::Wrapped));
    assert_eq!(hymofs_config_layout("enabled = true\n"), Ok(HymofsLayout::Plain));
    assert_eq!(hymofs_config_layout("enabled = = true"), Err(HymofsLayoutError::Parse));
    assert_eq!(hymofs_layout_from_keys(&None), Err(HymofsLayoutError::Parse));
    assert_eq!(
        hymofs_layout_from_keys(&Some(vec!["x".to_string(), "hymofs".to_string()])),
        Ok(HymofsLayout::Wrapped)
    );
}

#[test]
fn lkm_settings_change_only_their_field() {
    let mut c = Config::default();
    handle_lkm_set_autoload(&mut c, true);
    handle_lkm_set_kmi(&mut c, "android13-5.15");
    assert!(c.hymofs.lkm_autoload);
    assert_eq!(c.hymofs.lkm_kmi_override, "android13-5.15");
    handle_lkm_clear_kmi(&mut c);
    assert_eq!(c.hymofs.lkm_kmi_override, "");
    assert!(c.hymofs.lkm_autoload);
    assert!(!c.kasumi.enabled);
}
