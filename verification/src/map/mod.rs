//! OpenTCS driving-course model: names, points, paths.
pub mod model;
pub mod name_prefix;
pub mod opentcs_xml;
pub mod table;

use vstd::prelude::*;
use crate::config::MapNamePrefixes;
use crate::text::chars_of;
use crate::map::model::MapModel;
use crate::map::opentcs_xml::{
    builder_start, document_fuel, maps_consistent, parse_opentcs_model_xml, run_document,
};

verus! {

/// Why a map could not be loaded.
#[derive(Debug, Clone, PartialEq, Eq)]
pub enum MapError {
    /// The plant-model XML was rejected; the reader's message.
    Xml(String),
    /// The map file or the map settings were unusable.
    Io(String),
}

/// `s` ends with an underscore.
pub open spec fn ends_with_underscore(s: Seq<char>) -> bool {
    s.len() > 0 && s.last() == '_'
}

/// The message for a prefix setting `field` whose value `value` lacks the closing underscore.
pub open spec fn prefix_error_message(field: Seq<char>, value: Seq<char>) -> Seq<char> {
    "map.name_prefixes."@ + field + " must end with '_', got: "@ + value
}

/// Whether `s` ends with `_`.
fn ends_with_underscore_exec(s: &String) -> (b: bool)
    ensures
        b == ends_with_underscore(s@),
{
    let v = chars_of(s.as_str());
    v.len() > 0 && v[v.len() - 1] == '_'
}

/// The settings error for `field`.
fn prefix_error(field: &str, value: &String) -> (e: MapError)
    ensures
        e matches MapError::Io(m) && m@ == prefix_error_message(field@, value@),
{
    let mut m = String::from_str("map.name_prefixes.");
    m.append(field);
    m.append(" must end with '_', got: ");
    m.append(value.as_str());
    MapError::Io(m)
}

/// The settings error for name prefixes, if any: when stripping applies, the point prefix
/// and then the path prefix must end with `_`.
pub open spec fn spec_prefix_error(p: MapNamePrefixes) -> Option<Seq<char>> {
    if !p.apply_stripping {
        None
    } else if !ends_with_underscore(p.point_prefix@) {
        Some(prefix_error_message("point_prefix"@, p.point_prefix@))
    } else if !ends_with_underscore(p.path_prefix@) {
        Some(prefix_error_message("path_prefix"@, p.path_prefix@))
    } else {
        None
    }
}

/// Prefix settings are accepted exactly when stripping is off or both prefixes are non-empty
/// and end with `_`; an empty prefix is refused like any other without the underscore.
pub proof fn lemma_prefix_settings_accepted(p: MapNamePrefixes)
    ensures
        spec_prefix_error(p) is None <==> (!p.apply_stripping || (p.point_prefix@.len() > 0
            && p.point_prefix@.last() == '_' && p.path_prefix@.len() > 0 && p.path_prefix@.last()
            == '_')),
{
}

/// Name-prefix settings are usable: when stripping applies, both prefixes end with `_`.
pub fn validate_map_name_prefixes(p: &MapNamePrefixes) -> (r: Result<(), MapError>)
    ensures
        match spec_prefix_error(*p) {
            None => r is Ok,
            Some(msg) => r matches Err(MapError::Io(m)) && m@ == msg,
        },
        r is Ok <==> (!p.apply_stripping || (p.point_prefix@.len() > 0 && p.point_prefix@.last() == '_'
            && p.path_prefix@.len() > 0 && p.path_prefix@.last() == '_')),
        r is Err ==> r matches Err(MapError::Io(_)),
{
    if !p.apply_stripping {
        return Ok(());
    }
    if !ends_with_underscore_exec(&p.point_prefix) {
        return Err(prefix_error("point_prefix", &p.point_prefix));
    }
    if !ends_with_underscore_exec(&p.path_prefix) {
        return Err(prefix_error("path_prefix", &p.path_prefix));
    }
    Ok(())
}

/// The driving course in the plant-model text `xml`, with the name-prefix settings `prefixes`:
/// the settings are checked first, then the text is read as [`parse_opentcs_model_xml`]
/// reads it, and the model takes the settings.
pub fn load_map_from_xml(xml: &str, prefixes: MapNamePrefixes) -> (r: Result<MapModel, MapError>)
    ensures
        match spec_prefix_error(prefixes) {
            Some(msg) => r matches Err(MapError::Io(m)) && m@ == msg,
            None => match run_document(xml@, 0, document_fuel(xml), builder_start()) {
                Ok(b) => r matches Ok(m) && m.points@ == b.points && m.paths@ == b.paths
                    && m.name_prefixes == prefixes,
                Err(msg) => r matches Err(MapError::Xml(e)) && e@ == msg,
            },
        },
        r matches Ok(m) ==> maps_consistent(m.points@, m.paths@),
        prefixes.apply_stripping && !(prefixes.point_prefix@.len() > 0 && prefixes.point_prefix@.last()
            == '_' && prefixes.path_prefix@.len() > 0 && prefixes.path_prefix@.last() == '_') ==> r matches Err(
            MapError::Io(_),
        ),
{
    validate_map_name_prefixes(&prefixes)?;
    let mut model = parse_opentcs_model_xml(xml)?;
    model.name_prefixes = prefixes;
    Ok(model)
}

} // verus!
