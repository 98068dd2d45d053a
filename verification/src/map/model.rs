//! The OpenTCS plant model as the simulator keeps it: named points and named directed paths,
//! with the positions in the text the plant file gave them.
use vstd::prelude::*;
use crate::config::MapNamePrefixes;
use crate::map::name_prefix::{
    lemma_bare_id, lemma_canonical_name_id, spec_strip_prefix_and_parse_int,
    strip_prefix_and_parse_int,
};
use crate::map::table::KeyedTable;
use crate::text::{decimal, decimal_string};

verus! {

/// The text of an optional attribute.
pub open spec fn opt_text(o: Option<String>) -> Option<Seq<char>> {
    match o {
        Some(s) => Some(s@),
        None => None,
    }
}

/// A halt / waypoint: the `positionX` and `positionY` attribute text (millimetres), if given.
/// An absent or unparsable coordinate stands for 0.
#[derive(Clone, Debug)]
pub struct MapPoint {
    pub position_x: Option<String>,
    pub position_y: Option<String>,
}

/// Abstract value of a [`MapPoint`].
pub struct MapPointView {
    pub position_x: Option<Seq<char>>,
    pub position_y: Option<Seq<char>>,
}

impl View for MapPoint {
    type V = MapPointView;

    open spec fn view(&self) -> MapPointView {
        MapPointView { position_x: opt_text(self.position_x), position_y: opt_text(self.position_y) }
    }
}

/// A `pathLayout` control point: its `x` and `y` attribute text (layout units), if given.
#[derive(Clone, Debug)]
pub struct LayoutPoint {
    pub x: Option<String>,
    pub y: Option<String>,
}

/// Abstract value of a [`LayoutPoint`].
pub struct LayoutPointView {
    pub x: Option<Seq<char>>,
    pub y: Option<Seq<char>>,
}

impl View for LayoutPoint {
    type V = LayoutPointView;

    open spec fn view(&self) -> LayoutPointView {
        LayoutPointView { x: opt_text(self.x), y: opt_text(self.y) }
    }
}

/// A directed path between two points. `source_point` and `dest_point` are the end points as
/// they stood when the path was read; the world polyline runs from the first to the second,
/// through the layout control points when there are at least two of them.
#[derive(Clone, Debug)]
pub struct MapPath {
    pub name: String,
    pub source: String,
    pub dest: String,
    /// Declared `length` attribute text (mm).
    pub length: Option<String>,
    /// `maxVelocity` attribute text (mm/s).
    pub max_velocity: Option<String>,
    pub source_point: MapPoint,
    pub dest_point: MapPoint,
    pub layout_control_points: Vec<LayoutPoint>,
}

/// Abstract value of a [`MapPath`].
pub struct MapPathView {
    pub name: Seq<char>,
    pub source: Seq<char>,
    pub dest: Seq<char>,
    pub length: Option<Seq<char>>,
    pub max_velocity: Option<Seq<char>>,
    pub source_point: MapPointView,
    pub dest_point: MapPointView,
    pub layout_control_points: Seq<LayoutPointView>,
}

impl View for MapPath {
    type V = MapPathView;

    open spec fn view(&self) -> MapPathView {
        MapPathView {
            name: self.name@,
            source: self.source@,
            dest: self.dest@,
            length: opt_text(self.length),
            max_velocity: opt_text(self.max_velocity),
            source_point: self.source_point@,
            dest_point: self.dest_point@,
            layout_control_points: self.layout_control_points@.map_values(|c: LayoutPoint| c@),
        }
    }
}

/// Parsed driving course.
pub struct MapModel {
    pub points: KeyedTable<MapPoint>,
    pub paths: KeyedTable<MapPath>,
    /// How protocol names map onto plant names; by default no stripping.
    pub name_prefixes: MapNamePrefixes,
}

/// The key under which `name` is found among `keys`: `name` itself when present; else, when
/// stripping applies, `prefix` followed by the decimal id parsed from `name`, if that id is
/// positive and that key is present.
pub open spec fn spec_resolve_key(
    keys: Set<Seq<char>>,
    name: Seq<char>,
    apply_stripping: bool,
    prefix: Seq<char>,
) -> Option<Seq<char>> {
    if keys.contains(name) {
        Some(name)
    } else if !apply_stripping {
        None
    } else {
        let id = spec_strip_prefix_and_parse_int(name, prefix);
        if id <= 0 {
            None
        } else if keys.contains(prefix + decimal(id as nat)) {
            Some(prefix + decimal(id as nat))
        } else {
            None
        }
    }
}

/// A key that resolution yields is always a key of the table.
pub proof fn lemma_resolved_key_present(
    keys: Set<Seq<char>>,
    name: Seq<char>,
    apply_stripping: bool,
    prefix: Seq<char>,
)
    ensures
        spec_resolve_key(keys, name, apply_stripping, prefix) matches Some(k) ==> keys.contains(k),
{
}

/// With stripping off, a name resolves only to itself, and only when it is a key: no id is
/// read out of it.
pub proof fn lemma_exact_names_without_stripping(keys: Set<Seq<char>>, name: Seq<char>, prefix: Seq<char>)
    ensures
        spec_resolve_key(keys, name, false, prefix) == (if keys.contains(name) {
            Some(name)
        } else {
            None
        }),
{
}

/// With stripping on and a prefix ending in `_`, both the canonical name `prefix` + id and the
/// bare id resolve to the canonical name when it is a key and the bare id is not.
pub proof fn lemma_id_names_resolve_to_canonical(keys: Set<Seq<char>>, prefix: Seq<char>, n: i32)
    requires
        prefix.len() > 0,
        prefix.last() == '_',
        n > 0,
        keys.contains(prefix + decimal(n as nat)),
        !keys.contains(decimal(n as nat)),
    ensures
        spec_resolve_key(keys, prefix + decimal(n as nat), true, prefix) == Some(prefix + decimal(n as nat)),
        spec_resolve_key(keys, decimal(n as nat), true, prefix) == Some(prefix + decimal(n as nat)),
{
    lemma_canonical_name_id(prefix, n);
    lemma_bare_id(prefix, n);
}

impl Default for MapModel {
    /// No points, no paths, no name stripping.
    fn default() -> (m: Self)
        ensures
            m.points@ == Map::<Seq<char>, MapPointView>::empty(),
            m.paths@ == Map::<Seq<char>, MapPathView>::empty(),
            !m.name_prefixes.apply_stripping,
            m.name_prefixes.point_prefix@ == Seq::<char>::empty(),
            m.name_prefixes.path_prefix@ == Seq::<char>::empty(),
    {
        MapModel { points: KeyedTable::new(), paths: KeyedTable::new(), name_prefixes: MapNamePrefixes::default() }
    }
}

/// Shared key resolution for points and paths.
fn resolve_key<V: View>(table: &KeyedTable<V>, name: &str, apply_stripping: bool, prefix: &String) -> (r:
    Option<String>)
    ensures
        opt_text(r) == spec_resolve_key(table@.dom(), name@, apply_stripping, prefix@),
        r matches Some(k) ==> table@.dom().contains(k@),
        !apply_stripping ==> (r matches Some(k) ==> k@ == name@),
        !apply_stripping ==> (r is Some <==> table@.dom().contains(name@)),
{
    if table.contains_key(name) {
        return Some(name.to_owned());
    }
    if !apply_stripping {
        return None;
    }
    let id = strip_prefix_and_parse_int(name, prefix.as_str());
    if id <= 0 {
        return None;
    }
    let digits = decimal_string(id as u32);
    let canonical = prefix.clone().concat(digits.as_str());
    if table.contains_key(canonical.as_str()) {
        Some(canonical)
    } else {
        None
    }
}

impl MapModel {
    /// The point key that `name` refers to.
    pub fn resolve_point_key(&self, name: &str) -> (r: Option<String>)
        ensures
            opt_text(r) == spec_resolve_key(
                self.points@.dom(),
                name@,
                self.name_prefixes.apply_stripping,
                self.name_prefixes.point_prefix@,
            ),
            r matches Some(k) ==> self.points@.dom().contains(k@),
            !self.name_prefixes.apply_stripping ==> (r matches Some(k) ==> k@ == name@),
            !self.name_prefixes.apply_stripping ==> (r is Some <==> self.points@.dom().contains(name@)),
    {
        resolve_key(&self.points, name, self.name_prefixes.apply_stripping, &self.name_prefixes.point_prefix)
    }

    /// The path key that `name` refers to.
    pub fn resolve_path_key(&self, name: &str) -> (r: Option<String>)
        ensures
            opt_text(r) == spec_resolve_key(
                self.paths@.dom(),
                name@,
                self.name_prefixes.apply_stripping,
                self.name_prefixes.path_prefix@,
            ),
            r matches Some(k) ==> self.paths@.dom().contains(k@),
            !self.name_prefixes.apply_stripping ==> (r matches Some(k) ==> k@ == name@),
            !self.name_prefixes.apply_stripping ==> (r is Some <==> self.paths@.dom().contains(name@)),
    {
        resolve_key(&self.paths, name, self.name_prefixes.apply_stripping, &self.name_prefixes.path_prefix)
    }

    /// The point that the protocol node `name` refers to.
    pub fn point_world(&self, name: &str) -> (r: Option<&MapPoint>)
        ensures
            match spec_resolve_key(
                self.points@.dom(),
                name@,
                self.name_prefixes.apply_stripping,
                self.name_prefixes.point_prefix@,
            ) {
                Some(k) => r matches Some(p) && p@ == self.points@[k],
                None => r is None,
            },
            !self.name_prefixes.apply_stripping ==> (r is Some <==> self.points@.dom().contains(name@)),
            !self.name_prefixes.apply_stripping ==> (r matches Some(p) ==> p@ == self.points@[name@]),
    {
        match self.resolve_point_key(name) {
            Some(k) => self.points.get(k.as_str()),
            None => None,
        }
    }

    /// Geometry for a protocol edge: the path whose name resolves from `edge_id`; otherwise a
    /// path from the point that `start_node_id` resolves to, to the one `end_node_id` resolves
    /// to (any such path when there are several).
    #[verifier::loop_isolation(false)]
    pub fn path_for_edge(&self, edge_id: &str, start_node_id: &str, end_node_id: &str) -> (r: Option<
        &MapPath,
    >)
        ensures
            ({
                let pf = self.name_prefixes;
                match spec_resolve_key(self.paths@.dom(), edge_id@, pf.apply_stripping, pf.path_prefix@) {
                    Some(k) => r matches Some(p) && p@ == self.paths@[k],
                    None => match (
                        spec_resolve_key(self.points@.dom(), start_node_id@, pf.apply_stripping, pf.point_prefix@),
                        spec_resolve_key(self.points@.dom(), end_node_id@, pf.apply_stripping, pf.point_prefix@),
                    ) {
                        (Some(s), Some(e)) => match r {
                            Some(p) => p@.source == s && p@.dest == e && exists|k: Seq<char>|
                                #[trigger] self.paths@.dom().contains(k) && self.paths@[k] == p@,
                            None => forall|k: Seq<char>| #[trigger]
                                self.paths@.dom().contains(k) ==> !(self.paths@[k].source == s
                                    && self.paths@[k].dest == e),
                        },
                        _ => r is None,
                    },
                }
            }),
    {
        if let Some(k) = self.resolve_path_key(edge_id) {
            if let Some(p) = self.paths.get(k.as_str()) {
                return Some(p);
            }
        }
        let start = match self.resolve_point_key(start_node_id) {
            Some(s) => s,
            None => return None,
        };
        let end = match self.resolve_point_key(end_node_id) {
            Some(e) => e,
            None => return None,
        };
        let n = self.paths.len();
        let mut i: usize = 0;
        while i < n
            invariant
                n == self.paths.keys().len(),
                i <= n,
                forall|k: Seq<char>| #[trigger]
                    self.paths@.dom().contains(k) <==> self.paths.keys().contains(k),
                forall|j: int|
                    0 <= j < i ==> !(self.paths@[#[trigger] self.paths.keys()[j]].source == start@
                        && self.paths@[self.paths.keys()[j]].dest == end@),
            decreases n - i,
        {
            let (key, p) = self.paths.entry_at(i);
            if p.source == start && p.dest == end {
                assert(self.paths@.dom().contains(key@) && self.paths@[key@] == p@);
                return Some(p);
            }
            i = i + 1;
        }
        assert forall|k: Seq<char>| #[trigger] self.paths@.dom().contains(k) implies !(self.paths@[k].source
            == start@ && self.paths@[k].dest == end@) by {
            let j = choose|j: int| 0 <= j < self.paths.keys().len() && self.paths.keys()[j] == k;
            assert(self.paths@[self.paths.keys()[j]].source == self.paths@[k].source);
        }
        None
    }
}

} // verus!
