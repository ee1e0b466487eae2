//! Which entries of the plugin folder are plugins, and of what kind.
use vstd::prelude::*;

verus! {

/// How a plugin is packaged.
#[derive(Debug, Clone, Copy, PartialEq, Eq)]
pub enum PluginType {
    /// A component file ending in `.wasm`.
    File,
    /// A folder holding `component.wasm` and the plugin's data.
    Folder,
    /// A zip archive holding `component.wasm`.
    Zip,
}

/// The characters of `wasm`.
pub open spec fn wasm_text() -> Seq<char> {
    seq!['w', 'a', 's', 'm']
}

/// The characters of `zip`.
pub open spec fn zip_text() -> Seq<char> {
    seq!['z', 'i', 'p']
}

/// The kind of a folder entry: every folder is a plugin folder; a file is a
/// plugin when its extension is `wasm` or `zip`; anything else is not a
/// plugin.
pub open spec fn spec_plugin_type(is_dir: bool, extension: Option<Seq<char>>) -> Option<PluginType> {
    if is_dir {
        Some(PluginType::Folder)
    } else {
        match extension {
            Some(e) => if e == wasm_text() {
                Some(PluginType::File)
            } else if e == zip_text() {
                Some(PluginType::Zip)
            } else {
                None
            },
            None => None,
        }
    }
}

/// The kind of a folder entry, from whether it is a folder and its file
/// extension (absent when there is none or it is not valid UTF-8).
pub fn plugin_type(is_dir: bool, extension: Option<&str>) -> (r: Option<PluginType>)
    ensures
        r == spec_plugin_type(
            is_dir,
            match extension {
                Some(e) => Some(e@),
                None => None,
            },
        ),
{
    if is_dir {
        return Some(PluginType::Folder);
    }
    match extension {
        Some(e) => {
            let n = e.unicode_len();
            if n == 4 && e.get_char(0) == 'w' && e.get_char(1) == 'a' && e.get_char(2) == 's'
                && e.get_char(3) == 'm' {
                assert(e@ =~= wasm_text());
                Some(PluginType::File)
            } else if n == 3 && e.get_char(0) == 'z' && e.get_char(1) == 'i' && e.get_char(2) == 'p' {
                assert(e@ =~= zip_text());
                assert(e@ != wasm_text());
                Some(PluginType::Zip)
            } else {
                assert(e@ != wasm_text()) by {
                    if e@ == wasm_text() {
                        assert(e@[0] == 'w' && e@[1] == 'a' && e@[2] == 's' && e@[3] == 'm');
                    }
                }
                assert(e@ != zip_text()) by {
                    if e@ == zip_text() {
                        assert(e@[0] == 'z' && e@[1] == 'i' && e@[2] == 'p');
                    }
                }
                None
            }
        },
        None => None,
    }
}

/// Every folder is a plugin folder; a file is a component exactly when its
/// extension is `wasm`, an archive exactly when it is `zip`, and no plugin
/// otherwise.
pub proof fn lemma_plugin_kinds(is_dir: bool, extension: Option<Seq<char>>)
    ensures
        is_dir ==> spec_plugin_type(is_dir, extension) == Some(PluginType::Folder),
        !is_dir ==> (spec_plugin_type(is_dir, extension) == Some(PluginType::File) <==> extension
            == Some(seq!['w', 'a', 's', 'm'])),
        !is_dir ==> (spec_plugin_type(is_dir, extension) == Some(PluginType::Zip) <==> extension
            == Some(seq!['z', 'i', 'p'])),
        !is_dir ==> spec_plugin_type(is_dir, extension) != Some(PluginType::Folder),
{
    assert(wasm_text() =~= seq!['w', 'a', 's', 'm']);
    assert(zip_text() =~= seq!['z', 'i', 'p']);
    assert(wasm_text() != zip_text()) by {
        assert(wasm_text().len() != zip_text().len());
    }
}

/// Where the component of a plugin lies.
#[derive(Debug, Clone, Copy, PartialEq, Eq)]
pub enum ComponentSource {
    /// The plugin's file is the component.
    TheFile,
    /// `component.wasm` in the plugin's folder.
    InFolder,
    /// The entry `component.wasm` of the plugin's archive.
    InArchive,
}

/// Where a plugin of this kind keeps its component, and whether its path is
/// reported as the plugin's data path: a bare component file has no data
/// path; folders and archives do.
pub open spec fn spec_component_source(kind: PluginType) -> (ComponentSource, bool) {
    match kind {
        PluginType::File => (ComponentSource::TheFile, false),
        PluginType::Folder => (ComponentSource::InFolder, true),
        PluginType::Zip => (ComponentSource::InArchive, true),
    }
}

/// Where a plugin of this kind keeps its component, and whether its path is
/// reported as the plugin's data path.
pub fn component_source(kind: PluginType) -> (r: (ComponentSource, bool))
    ensures
        r == spec_component_source(kind),
{
    match kind {
        PluginType::File => (ComponentSource::TheFile, false),
        PluginType::Folder => (ComponentSource::InFolder, true),
        PluginType::Zip => (ComponentSource::InArchive, true),
    }
}

} // verus!
