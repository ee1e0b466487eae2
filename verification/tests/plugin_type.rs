use wasm_core::plugin::{component_source, plugin_type, ComponentSource, PluginType};

#[test]
fn folders_are_plugins() {
    assert_eq!(plugin_type(true, None), Some(PluginType::Folder));
    assert_eq!(plugin_type(true, Some("txt")), Some(PluginType::Folder));
}

#[test]
fn files_by_extension() {
    assert_eq!(plugin_type(false, Some("wasm")), Some(PluginType::File));
    assert_eq!(plugin_type(false, Some("zip")), Some(PluginType::Zip));
    assert_eq!(plugin_type(false, Some("WASM")), None);
    assert_eq!(plugin_type(false, Some("jar")), None);
    assert_eq!(plugin_type(false, Some("")), None);
    assert_eq!(plugin_type(false, None), None);
}

#[test]
fn component_sources() {
    assert_eq!(component_source(PluginType::File), (ComponentSource::TheFile, false));
    assert_eq!(component_source(PluginType::Folder), (ComponentSource::InFolder, true));
    assert_eq!(component_source(PluginType::Zip), (ComponentSource::InArchive, true));
}
