//! Reading an OpenTCS 6.0 `model` document: points, paths and `pathLayout` control points.
//!
//! quick-xml tokenizes the text; what the tokens mean for the plant model is decided here,
//! one event at a time, by [`MapBuilder::step`].
use vstd::prelude::*;
use crate::map::model::{
    opt_text, LayoutPoint, LayoutPointView, MapModel, MapPath, MapPathView, MapPoint, MapPointView,
};
use crate::map::table::KeyedTable;
use crate::config::MapNamePrefixes;
use crate::map::MapError;
use quick_xml::events::{BytesStart, Event};
use quick_xml::Reader;
use vstd::string::StringSliceAdditionalSpecFns;

verus! {

/// An attribute as the reader hands it out: its name and its raw value text.
#[derive(Clone, Debug)]
pub struct XmlAttribute {
    pub key: String,
    pub value: String,
}

/// A start or empty-element tag: its name and its attributes in document order; an
/// attribute the reader could not make out is `None`.
#[derive(Clone, Debug)]
pub struct XmlTag {
    pub name: String,
    pub attributes: Vec<Option<XmlAttribute>>,
}

/// One reader event, reduced to what the plant model needs.
#[derive(Clone, Debug)]
pub enum XmlEvent {
    Start(XmlTag),
    Empty(XmlTag),
    End(String),
    Eof,
    /// Text, comments, declarations and the like.
    Other,
    /// The reader's error message.
    Error(String),
}

/// Abstract value of an attribute list.
pub open spec fn attribute_views(attrs: Seq<Option<XmlAttribute>>) -> Seq<Option<(Seq<char>, Seq<char>)>> {
    attrs.map_values(
        |a: Option<XmlAttribute>|
            match a {
                Some(x) => Some((x.key@, x.value@)),
                None => None,
            },
    )
}

/// Abstract value of an [`XmlTag`].
pub struct XmlTagView {
    pub name: Seq<char>,
    pub attributes: Seq<Option<(Seq<char>, Seq<char>)>>,
}

impl View for XmlTag {
    type V = XmlTagView;

    open spec fn view(&self) -> XmlTagView {
        XmlTagView { name: self.name@, attributes: attribute_views(self.attributes@) }
    }
}

/// Abstract value of an [`XmlEvent`].
pub enum XmlEventView {
    Start(XmlTagView),
    Empty(XmlTagView),
    End(Seq<char>),
    Eof,
    Other,
    Error(Seq<char>),
}

impl View for XmlEvent {
    type V = XmlEventView;

    open spec fn view(&self) -> XmlEventView {
        match self {
            XmlEvent::Start(t) => XmlEventView::Start(t@),
            XmlEvent::Empty(t) => XmlEventView::Empty(t@),
            XmlEvent::End(n) => XmlEventView::End(n@),
            XmlEvent::Eof => XmlEventView::Eof,
            XmlEvent::Other => XmlEventView::Other,
            XmlEvent::Error(m) => XmlEventView::Error(m@),
        }
    }
}

/// Name and coordinates of a point tag being read.
pub type PointAttrs = (Seq<char>, Option<Seq<char>>, Option<Seq<char>>);

/// One attribute applied to a point: `name`, `positionX`, `positionY`; others are ignored.
pub open spec fn point_attr(acc: PointAttrs, a: Option<(Seq<char>, Seq<char>)>) -> PointAttrs {
    match a {
        Some((k, v)) => if k == "name"@ {
            (v, acc.1, acc.2)
        } else if k == "positionX"@ {
            (acc.0, Some(v), acc.2)
        } else if k == "positionY"@ {
            (acc.0, acc.1, Some(v))
        } else {
            acc
        },
        None => acc,
    }
}

/// Attributes applied to a point in document order; a later duplicate wins.
pub open spec fn point_attrs(attrs: Seq<Option<(Seq<char>, Seq<char>)>>, acc: PointAttrs) -> PointAttrs
    decreases attrs.len(),
{
    if attrs.len() == 0 {
        acc
    } else {
        point_attr(point_attrs(attrs.drop_last(), acc), attrs.last())
    }
}

/// One attribute applied to a control point: `x`, `y`.
pub open spec fn layout_attr(acc: LayoutPointView, a: Option<(Seq<char>, Seq<char>)>) -> LayoutPointView {
    match a {
        Some((k, v)) => if k == "x"@ {
            LayoutPointView { x: Some(v), y: acc.y }
        } else if k == "y"@ {
            LayoutPointView { x: acc.x, y: Some(v) }
        } else {
            acc
        },
        None => acc,
    }
}

/// A control point read from its attributes.
pub open spec fn layout_attrs(attrs: Seq<Option<(Seq<char>, Seq<char>)>>) -> LayoutPointView
    decreases attrs.len(),
{
    if attrs.len() == 0 {
        LayoutPointView { x: None, y: None }
    } else {
        layout_attr(layout_attrs(attrs.drop_last()), attrs.last())
    }
}

/// Abstract value of a path being read.
pub struct PathDraftView {
    pub name: Seq<char>,
    pub source: Seq<char>,
    pub dest: Seq<char>,
    pub length: Option<Seq<char>>,
    pub max_velocity: Option<Seq<char>>,
    pub layout: Seq<LayoutPointView>,
}

/// A path with nothing read yet.
pub open spec fn empty_draft() -> PathDraftView {
    PathDraftView {
        name: Seq::empty(),
        source: Seq::empty(),
        dest: Seq::empty(),
        length: None,
        max_velocity: None,
        layout: Seq::empty(),
    }
}

/// One attribute applied to a path: `name`, `sourcePoint`, `destinationPoint`, `length`,
/// `maxVelocity`.
pub open spec fn path_attr(d: PathDraftView, a: Option<(Seq<char>, Seq<char>)>) -> PathDraftView {
    match a {
        Some((k, v)) => if k == "name"@ {
            PathDraftView { name: v, ..d }
        } else if k == "sourcePoint"@ {
            PathDraftView { source: v, ..d }
        } else if k == "destinationPoint"@ {
            PathDraftView { dest: v, ..d }
        } else if k == "length"@ {
            PathDraftView { length: Some(v), ..d }
        } else if k == "maxVelocity"@ {
            PathDraftView { max_velocity: Some(v), ..d }
        } else {
            d
        },
        None => d,
    }
}

/// A path read from the attributes of its start tag.
pub open spec fn path_attrs(attrs: Seq<Option<(Seq<char>, Seq<char>)>>) -> PathDraftView
    decreases attrs.len(),
{
    if attrs.len() == 0 {
        empty_draft()
    } else {
        path_attr(path_attrs(attrs.drop_last()), attrs.last())
    }
}

/// Whether `s` spells `lit`.
fn text_is(s: &String, lit: &str) -> (b: bool)
    ensures
        b == (s@ == lit@),
{
    *s == lit.to_owned()
}

/// A copy of an optional attribute text.
fn copy_text(o: &Option<String>) -> (r: Option<String>)
    ensures
        opt_text(r) == opt_text(*o),
{
    match o {
        Some(s) => Some(s.clone()),
        None => None,
    }
}

/// Applies the point attributes of `tag` to the name and coordinates read so far; the name
/// starts out empty, the coordinates keep their values unless given.
fn read_point_attrs(tag: &XmlTag, name: &mut String, px: &mut Option<String>, py: &mut Option<String>)
    ensures
        (final(name)@, opt_text(*final(px)), opt_text(*final(py))) == point_attrs(
            tag@.attributes,
            (Seq::empty(), opt_text(*old(px)), opt_text(*old(py))),
        ),
{
    let ghost init: PointAttrs = (Seq::empty(), opt_text(*px), opt_text(*py));
    let ghost attrs = tag@.attributes;
    *name = String::new();
    let n = tag.attributes.len();
    for i in 0..n
        invariant
            n == tag.attributes@.len(),
            attrs == attribute_views(tag.attributes@),
            (name@, opt_text(*px), opt_text(*py)) == point_attrs(attrs.take(i as int), init),
    {
        assert(attrs.take(i + 1).drop_last() =~= attrs.take(i as int));
        if let Some(a) = &tag.attributes[i] {
            if text_is(&a.key, "name") {
                *name = a.value.clone();
            } else if text_is(&a.key, "positionX") {
                *px = Some(a.value.clone());
            } else if text_is(&a.key, "positionY") {
                *py = Some(a.value.clone());
            }
        }
    }
    assert(attrs.take(n as int) =~= attrs);
}

/// A control point from the attributes of its tag.
fn read_layout_attrs(tag: &XmlTag) -> (c: LayoutPoint)
    ensures
        c@ == layout_attrs(tag@.attributes),
{
    let ghost attrs = tag@.attributes;
    let mut c = LayoutPoint { x: None, y: None };
    let n = tag.attributes.len();
    for i in 0..n
        invariant
            n == tag.attributes@.len(),
            attrs == attribute_views(tag.attributes@),
            c@ == layout_attrs(attrs.take(i as int)),
    {
        assert(attrs.take(i + 1).drop_last() =~= attrs.take(i as int));
        if let Some(a) = &tag.attributes[i] {
            if text_is(&a.key, "x") {
                c.x = Some(a.value.clone());
            } else if text_is(&a.key, "y") {
                c.y = Some(a.value.clone());
            }
        }
    }
    assert(attrs.take(n as int) =~= attrs);
    c
}

/// A path being read.
pub struct PathDraft {
    pub name: String,
    pub source: String,
    pub dest: String,
    pub length: Option<String>,
    pub max_velocity: Option<String>,
    pub layout: Vec<LayoutPoint>,
}

impl View for PathDraft {
    type V = PathDraftView;

    open spec fn view(&self) -> PathDraftView {
        PathDraftView {
            name: self.name@,
            source: self.source@,
            dest: self.dest@,
            length: opt_text(self.length),
            max_velocity: opt_text(self.max_velocity),
            layout: self.layout@.map_values(|c: LayoutPoint| c@),
        }
    }
}

impl PathDraft {
    /// A path with nothing read yet.
    pub fn new() -> (d: Self)
        ensures
            d@ == empty_draft(),
    {
        let d = PathDraft {
            name: String::new(),
            source: String::new(),
            dest: String::new(),
            length: None,
            max_velocity: None,
            layout: Vec::new(),
        };
        assert(d@.layout =~= Seq::<LayoutPointView>::empty());
        d
    }
}

/// A path from the attributes of its start tag.
fn read_path_attrs(tag: &XmlTag) -> (d: PathDraft)
    ensures
        d@ == path_attrs(tag@.attributes),
{
    let ghost attrs = tag@.attributes;
    let mut d = PathDraft::new();
    let n = tag.attributes.len();
    for i in 0..n
        invariant
            n == tag.attributes@.len(),
            attrs == attribute_views(tag.attributes@),
            d@ == path_attrs(attrs.take(i as int)),
    {
        assert(attrs.take(i + 1).drop_last() =~= attrs.take(i as int));
        if let Some(a) = &tag.attributes[i] {
            if text_is(&a.key, "name") {
                d.name = a.value.clone();
            } else if text_is(&a.key, "sourcePoint") {
                d.source = a.value.clone();
            } else if text_is(&a.key, "destinationPoint") {
                d.dest = a.value.clone();
            } else if text_is(&a.key, "length") {
                d.length = Some(a.value.clone());
            } else if text_is(&a.key, "maxVelocity") {
                d.max_velocity = Some(a.value.clone());
            }
        }
    }
    assert(attrs.take(n as int) =~= attrs);
    d
}

/// Abstract state of the plant-model reader.
pub struct BuilderView {
    pub points: Map<Seq<char>, MapPointView>,
    pub paths: Map<Seq<char>, MapPathView>,
    pub inside_point: bool,
    pub point_name: Seq<char>,
    pub px: Option<Seq<char>>,
    pub py: Option<Seq<char>>,
    pub inside_path: bool,
    pub path: PathDraftView,
    pub inside_path_layout: bool,
}

/// The reader's state before the first event.
pub open spec fn builder_start() -> BuilderView {
    BuilderView {
        points: Map::empty(),
        paths: Map::empty(),
        inside_point: false,
        point_name: Seq::empty(),
        px: None,
        py: None,
        inside_path: false,
        path: empty_draft(),
        inside_path_layout: false,
    }
}

/// The path that a finished draft becomes, with its end points as they stand in `points`.
pub open spec fn finished_path(d: PathDraftView, points: Map<Seq<char>, MapPointView>) -> MapPathView {
    MapPathView {
        name: d.name,
        source: d.source,
        dest: d.dest,
        length: d.length,
        max_velocity: d.max_velocity,
        source_point: points[d.source],
        dest_point: points[d.dest],
        layout_control_points: d.layout,
    }
}

/// What a start tag does to the reader's state.
pub open spec fn start_tag_step(b: BuilderView, t: XmlTagView) -> BuilderView {
    if t.name == "point"@ {
        let (n, x, y) = point_attrs(t.attributes, (Seq::empty(), b.px, b.py));
        BuilderView { inside_point: true, point_name: n, px: x, py: y, ..b }
    } else if t.name == "path"@ {
        BuilderView { inside_path: true, path: path_attrs(t.attributes), ..b }
    } else if t.name == "pathLayout"@ {
        if b.inside_path {
            BuilderView { inside_path_layout: true, path: PathDraftView { layout: Seq::empty(), ..b.path }, ..b }
        } else {
            b
        }
    } else if t.name == "controlPoint"@ && b.inside_path_layout {
        BuilderView {
            path: PathDraftView { layout: b.path.layout.push(layout_attrs(t.attributes)), ..b.path },
            ..b
        }
    } else {
        b
    }
}

/// What an empty-element tag does to the reader's state.
pub open spec fn empty_tag_step(b: BuilderView, t: XmlTagView) -> BuilderView {
    if t.name == "point"@ {
        let (n, x, y) = point_attrs(t.attributes, (Seq::empty(), None, None));
        if n.len() > 0 {
            BuilderView { points: b.points.insert(n, MapPointView { position_x: x, position_y: y }), ..b }
        } else {
            b
        }
    } else if t.name == "controlPoint"@ && b.inside_path_layout {
        BuilderView {
            path: PathDraftView { layout: b.path.layout.push(layout_attrs(t.attributes)), ..b.path },
            ..b
        }
    } else {
        b
    }
}

/// What an end tag does to the reader's state. A point is kept when it has a name; a path
/// when it has a name and both its end points are already known.
pub open spec fn end_tag_step(b: BuilderView, name: Seq<char>) -> BuilderView {
    if name == "point"@ {
        let points = if b.inside_point && b.point_name.len() > 0 {
            b.points.insert(b.point_name, MapPointView { position_x: b.px, position_y: b.py })
        } else {
            b.points
        };
        BuilderView { points, inside_point: false, ..b }
    } else if name == "pathLayout"@ {
        BuilderView { inside_path_layout: false, ..b }
    } else if name == "path"@ {
        if b.inside_path {
            let d = b.path;
            let paths = if d.name.len() > 0 && b.points.dom().contains(d.source) && b.points.dom().contains(
                d.dest,
            ) {
                b.paths.insert(d.name, finished_path(d, b.points))
            } else {
                b.paths
            };
            BuilderView { paths, path: empty_draft(), inside_path: false, ..b }
        } else {
            BuilderView { inside_path: false, ..b }
        }
    } else {
        b
    }
}

/// What one event does to the reader's state; other events change nothing.
pub open spec fn step_spec(b: BuilderView, ev: XmlEventView) -> BuilderView {
    match ev {
        XmlEventView::Start(t) => start_tag_step(b, t),
        XmlEventView::Empty(t) => empty_tag_step(b, t),
        XmlEventView::End(n) => end_tag_step(b, n),
        _ => b,
    }
}

/// A copy of a point.
fn copy_point(p: &MapPoint) -> (r: MapPoint)
    ensures
        r@ == p@,
{
    MapPoint { position_x: copy_text(&p.position_x), position_y: copy_text(&p.position_y) }
}

/// The plant-model reader: what has been read so far and where in the document it stands.
pub struct MapBuilder {
    points: KeyedTable<MapPoint>,
    paths: KeyedTable<MapPath>,
    inside_point: bool,
    point_name: String,
    px: Option<String>,
    py: Option<String>,
    inside_path: bool,
    path: PathDraft,
    inside_path_layout: bool,
}

impl View for MapBuilder {
    type V = BuilderView;

    closed spec fn view(&self) -> BuilderView {
        BuilderView {
            points: self.points@,
            paths: self.paths@,
            inside_point: self.inside_point,
            point_name: self.point_name@,
            px: opt_text(self.px),
            py: opt_text(self.py),
            inside_path: self.inside_path,
            path: self.path@,
            inside_path_layout: self.inside_path_layout,
        }
    }
}

impl MapBuilder {
    /// A reader that has seen nothing.
    pub fn new() -> (b: Self)
        ensures
            b@ == builder_start(),
    {
        MapBuilder {
            points: KeyedTable::new(),
            paths: KeyedTable::new(),
            inside_point: false,
            point_name: String::new(),
            px: None,
            py: None,
            inside_path: false,
            path: PathDraft::new(),
            inside_path_layout: false,
        }
    }

    fn push_control_point(&mut self, tag: &XmlTag)
        ensures
            final(self)@ == (BuilderView {
                path: PathDraftView {
                    layout: old(self)@.path.layout.push(layout_attrs(tag@.attributes)),
                    ..old(self)@.path
                },
                ..old(self)@
            }),
    {
        let c = read_layout_attrs(tag);
        let ghost old_layout = self.path.layout@;
        self.path.layout.push(c);
        assert(self.path.layout@.map_values(|c: LayoutPoint| c@) =~= old_layout.map_values(
            |c: LayoutPoint| c@,
        ).push(layout_attrs(tag@.attributes)));
    }

    fn start_tag(&mut self, tag: &XmlTag)
        ensures
            final(self)@ == start_tag_step(old(self)@, tag@),
    {
        if text_is(&tag.name, "point") {
            self.inside_point = true;
            read_point_attrs(tag, &mut self.point_name, &mut self.px, &mut self.py);
        } else if text_is(&tag.name, "path") {
            self.inside_path = true;
            self.path = read_path_attrs(tag);
        } else if text_is(&tag.name, "pathLayout") {
            if self.inside_path {
                self.inside_path_layout = true;
                self.path.layout = Vec::new();
                assert(self.path@.layout =~= Seq::<LayoutPointView>::empty());
            }
        } else if text_is(&tag.name, "controlPoint") && self.inside_path_layout {
            self.push_control_point(tag);
        }
    }

    fn empty_tag(&mut self, tag: &XmlTag)
        ensures
            final(self)@ == empty_tag_step(old(self)@, tag@),
    {
        if text_is(&tag.name, "point") {
            let mut n = String::new();
            let mut x: Option<String> = None;
            let mut y: Option<String> = None;
            read_point_attrs(tag, &mut n, &mut x, &mut y);
            if !n.as_str().is_empty() {
                self.points.insert(n, MapPoint { position_x: x, position_y: y });
            }
        } else if text_is(&tag.name, "controlPoint") && self.inside_path_layout {
            self.push_control_point(tag);
        }
    }

    fn end_tag(&mut self, name: &String)
        ensures
            final(self)@ == end_tag_step(old(self)@, name@),
    {
        if text_is(name, "point") {
            if self.inside_point && !self.point_name.as_str().is_empty() {
                let p = MapPoint { position_x: copy_text(&self.px), position_y: copy_text(&self.py) };
                self.points.insert(self.point_name.clone(), p);
            }
            self.inside_point = false;
        } else if text_is(name, "pathLayout") {
            self.inside_path_layout = false;
        } else if text_is(name, "path") {
            if self.inside_path {
                let mut d = PathDraft::new();
                std::mem::swap(&mut d, &mut self.path);
                if !d.name.as_str().is_empty() {
                    let s = self.points.get(d.source.as_str());
                    let e = self.points.get(d.dest.as_str());
                    if let (Some(sp), Some(ep)) = (s, e) {
                        let path = MapPath {
                            name: d.name.clone(),
                            source: d.source,
                            dest: d.dest,
                            length: d.length,
                            max_velocity: d.max_velocity,
                            source_point: copy_point(sp),
                            dest_point: copy_point(ep),
                            layout_control_points: d.layout,
                        };
                        self.paths.insert(d.name, path);
                    }
                }
            }
            self.inside_path = false;
        }
    }

    /// Take in one event.
    pub fn step(&mut self, ev: &XmlEvent)
        ensures
            final(self)@ == step_spec(old(self)@, ev@),
    {
        match ev {
            XmlEvent::Start(t) => self.start_tag(t),
            XmlEvent::Empty(t) => self.empty_tag(t),
            XmlEvent::End(n) => self.end_tag(n),
            _ => {},
        }
    }

    /// The model read so far, with no name stripping.
    pub fn finish(self) -> (m: MapModel)
        ensures
            m.points@ == self@.points,
            m.paths@ == self@.paths,
            !m.name_prefixes.apply_stripping,
            m.name_prefixes.point_prefix@ == Seq::<char>::empty(),
            m.name_prefixes.path_prefix@ == Seq::<char>::empty(),
    {
        MapModel { points: self.points, paths: self.paths, name_prefixes: MapNamePrefixes::default() }
    }
}

/// Reading a list of events: stop at the first end-of-document (or at the end of the list)
/// with the state reached, or at the first reader error with its message.
pub open spec fn run_events(b: BuilderView, evs: Seq<XmlEventView>) -> Result<BuilderView, Seq<char>>
    decreases evs.len(),
{
    if evs.len() == 0 {
        Ok(b)
    } else {
        match evs[0] {
            XmlEventView::Eof => Ok(b),
            XmlEventView::Error(m) => Err(m),
            _ => run_events(step_spec(b, evs[0]), evs.drop_first()),
        }
    }
}

/// `m` holds the points and paths of `b`, with no name stripping.
pub open spec fn model_holds(m: MapModel, b: BuilderView) -> bool {
    &&& m.points@ == b.points
    &&& m.paths@ == b.paths
    &&& !m.name_prefixes.apply_stripping
    &&& m.name_prefixes.point_prefix@ == Seq::<char>::empty()
    &&& m.name_prefixes.path_prefix@ == Seq::<char>::empty()
}

/// `r` is the outcome `o` of reading: the model, or the reader's message as an XML error.
pub open spec fn outcome_holds(r: Result<MapModel, MapError>, o: Result<BuilderView, Seq<char>>) -> bool {
    match o {
        Ok(b) => r matches Ok(m) && model_holds(m, b),
        Err(msg) => r matches Err(MapError::Xml(e)) && e@ == msg,
    }
}

/// The abstract values of a list of events.
pub open spec fn event_views(evs: Seq<XmlEvent>) -> Seq<XmlEventView> {
    evs.map_values(|e: XmlEvent| e@)
}

/// The plant model that a list of reader events describes; the end of the list counts as the
/// end of the document.
pub fn model_from_events(events: &Vec<XmlEvent>) -> (r: Result<MapModel, MapError>)
    ensures
        outcome_holds(r, run_events(builder_start(), event_views(events@))),
{
    let ghost evs = event_views(events@);
    let mut b = MapBuilder::new();
    let n = events.len();
    let mut i: usize = 0;
    assert(evs.skip(0) =~= evs);
    while i < n
        invariant
            n == events@.len(),
            i <= n,
            evs == event_views(events@),
            run_events(builder_start(), evs) == run_events(b@, evs.skip(i as int)),
        decreases n - i,
    {
        assert(evs.skip(i as int)[0] == events@[i as int]@);
        assert(evs.skip(i as int).drop_first() =~= evs.skip(i + 1));
        match &events[i] {
            XmlEvent::Eof => {
                return Ok(b.finish());
            },
            XmlEvent::Error(m) => {
                return Err(MapError::Xml(m.clone()));
            },
            ev => {
                b.step(ev);
            },
        }
        i = i + 1;
    }
    assert(evs.skip(n as int).len() == 0);
    Ok(b.finish())
}

/// Every point has a name; every path is filed under its own non-empty name and runs between
/// two points of `points`.
pub open spec fn maps_consistent(
    points: Map<Seq<char>, MapPointView>,
    paths: Map<Seq<char>, MapPathView>,
) -> bool {
    &&& forall|k: Seq<char>| #[trigger] points.dom().contains(k) ==> k.len() > 0
    &&& forall|k: Seq<char>| #[trigger]
        paths.dom().contains(k) ==> {
            &&& k.len() > 0
            &&& paths[k].name == k
            &&& points.dom().contains(paths[k].source)
            &&& points.dom().contains(paths[k].dest)
        }
}

/// The points and paths read so far are consistent.
pub open spec fn builder_consistent(b: BuilderView) -> bool {
    maps_consistent(b.points, b.paths)
}

/// Each event keeps the reader's state consistent.
pub proof fn lemma_step_consistent(b: BuilderView, ev: XmlEventView)
    requires
        builder_consistent(b),
    ensures
        builder_consistent(step_spec(b, ev)),
{
    let b2 = step_spec(b, ev);
    assert forall|k: Seq<char>| #[trigger] b2.paths.dom().contains(k) implies {
        &&& k.len() > 0
        &&& b2.paths[k].name == k
        &&& b2.points.dom().contains(b2.paths[k].source)
        &&& b2.points.dom().contains(b2.paths[k].dest)
    } by {
        assert(b.points.dom().subset_of(b2.points.dom()));
    }
}

/// A model read from any list of events has named points, and paths filed under their own
/// names that run between points of the model.
pub proof fn lemma_read_model_consistent(b: BuilderView, evs: Seq<XmlEventView>)
    requires
        builder_consistent(b),
    ensures
        run_events(b, evs) matches Ok(b2) ==> builder_consistent(b2),
    decreases evs.len(),
{
    if evs.len() > 0 {
        match evs[0] {
            XmlEventView::Eof => {},
            XmlEventView::Error(_) => {},
            _ => {
                lemma_step_consistent(b, evs[0]);
                lemma_read_model_consistent(step_spec(b, evs[0]), evs.drop_first());
            },
        }
    }
}

/// Each stored path carries its end points as the model holds them.
pub open spec fn endpoints_current(b: BuilderView) -> bool {
    forall|k: Seq<char>| #[trigger]
        b.paths.dom().contains(k) ==> b.paths[k].source_point == b.points[b.paths[k].source]
            && b.paths[k].dest_point == b.points[b.paths[k].dest]
}

/// The event leaves every point already read as it is (it adds a new point or none).
pub open spec fn keeps_points(b: BuilderView, ev: XmlEventView) -> bool {
    forall|k: Seq<char>| #[trigger]
        b.points.dom().contains(k) ==> step_spec(b, ev).points.dom().contains(k)
            && step_spec(b, ev).points[k] == b.points[k]
}

/// No event of `evs` read from `b` on (up to the end of the document) redefines a point.
pub open spec fn no_point_redefined(b: BuilderView, evs: Seq<XmlEventView>) -> bool
    decreases evs.len(),
{
    if evs.len() == 0 {
        true
    } else {
        match evs[0] {
            XmlEventView::Eof => true,
            XmlEventView::Error(_) => true,
            _ => keeps_points(b, evs[0]) && no_point_redefined(step_spec(b, evs[0]), evs.drop_first()),
        }
    }
}

proof fn lemma_step_endpoints_current(b: BuilderView, ev: XmlEventView)
    requires
        builder_consistent(b),
        endpoints_current(b),
        keeps_points(b, ev),
    ensures
        endpoints_current(step_spec(b, ev)),
{
    let b2 = step_spec(b, ev);
    assert forall|k: Seq<char>| #[trigger] b2.paths.dom().contains(k) implies b2.paths[k].source_point
        == b2.points[b2.paths[k].source] && b2.paths[k].dest_point == b2.points[b2.paths[k].dest] by {
        if b.paths.dom().contains(k) && b2.paths[k] == b.paths[k] {
            assert(b.points.dom().contains(b.paths[k].source));
            assert(b.points.dom().contains(b.paths[k].dest));
        }
    }
}

/// When no point is defined twice, every path of the model carries the model's own points of
/// its source and destination names.
pub proof fn lemma_read_endpoints_current(b: BuilderView, evs: Seq<XmlEventView>)
    requires
        builder_consistent(b),
        endpoints_current(b),
        no_point_redefined(b, evs),
    ensures
        run_events(b, evs) matches Ok(b2) ==> endpoints_current(b2),
    decreases evs.len(),
{
    if evs.len() > 0 {
        match evs[0] {
            XmlEventView::Eof => {},
            XmlEventView::Error(_) => {},
            _ => {
                lemma_step_consistent(b, evs[0]);
                lemma_step_endpoints_current(b, evs[0]);
                lemma_read_endpoints_current(step_spec(b, evs[0]), evs.drop_first());
            },
        }
    }
}

/// quick-xml's pull reader.
#[verifier::external_type_specification]
#[verifier::external_body]
#[verifier::reject_recursive_types(R)]
pub struct ExXmlReader<R>(Reader<R>);

/// The `index`-th event (counting from 0) that a quick-xml `Reader` made with `from_reader`
/// over the UTF-8 bytes of `input`, with `trim_text(true)`, hands out from `read_event`.
pub uninterp spec fn xml_event_at(input: Seq<char>, index: nat) -> XmlEventView;

/// An event stream over one document: the quick-xml reader, with the document and the number
/// of events handed out so far kept for the contracts.
pub struct XmlEventReader<'a> {
    reader: Reader<&'a [u8]>,
    input: Ghost<Seq<char>>,
    consumed: Ghost<nat>,
}

impl<'a> XmlEventReader<'a> {
    /// The document being read.
    pub closed spec fn input(self) -> Seq<char> {
        self.input@
    }

    /// How many events have been handed out.
    pub closed spec fn consumed(self) -> nat {
        self.consumed@
    }

    /// A stream at the start of `xml`, with text trimming on.
    pub fn new(xml: &'a str) -> (r: Self)
        ensures
            r.input() == xml@,
            r.consumed() == 0,
    {
        open_stream(xml)
    }

    /// The next event.
    pub fn next_event(&mut self) -> (ev: XmlEvent)
        ensures
            ev@ == xml_event_at(old(self).input(), old(self).consumed()),
            final(self).input() == old(self).input(),
            final(self).consumed() == old(self).consumed() + 1,
    {
        read_next_event(self)
    }
}

/// quick-xml's `Reader::from_reader` over the UTF-8 bytes of `xml`, then
/// `Reader::config_mut().trim_text(true)`: a stream at the start of the document, with text
/// trimming on. The contract records that document and a count of zero events; together with
/// [`read_next_event`], the only other item that touches a stream, it claims that the `n`-th
/// event handed out is [`xml_event_at`] of the document and `n`.
#[verifier::external_body]
fn open_stream<'a>(xml: &'a str) -> (r: XmlEventReader<'a>)
    ensures
        r.input@ == xml@,
        r.consumed@ == 0,
{
    let mut reader = Reader::from_reader(xml.as_bytes());
    reader.config_mut().trim_text(true);
    XmlEventReader { reader, input: Ghost(xml@), consumed: Ghost(0) }
}

/// quick-xml's `Reader::read_event`, each event converted one for one: start and
/// empty-element tags with their name and their attributes (an attribute the reader rejects
/// becomes `None`), end tags with their name, the end of the document, the reader's error
/// message, and `Other` for every other kind of event. The contract claims that the event is
/// the one [`xml_event_at`] names for the stream's document and count, and that the count
/// goes up by one: a stream is only made by [`open_stream`], which opens the reader on the
/// document it records, and only advanced here.
#[verifier::external_body]
fn read_next_event(r: &mut XmlEventReader) -> (ev: XmlEvent)
    ensures
        ev@ == xml_event_at(old(r).input@, old(r).consumed@),
        final(r).input@ == old(r).input@,
        final(r).consumed@ == old(r).consumed@ + 1,
{
    let tag = |e: &BytesStart| XmlTag {
        name: e.name().0.to_string(),
        attributes: e.attributes().map(|a| a.ok().map(|a| XmlAttribute { key: a.key.0.to_string(), value: a.value.to_string() })).collect(),
    };
    match r.reader.read_event() {
        Ok(Event::Start(e)) => XmlEvent::Start(tag(&e)),
        Ok(Event::Empty(e)) => XmlEvent::Empty(tag(&e)),
        Ok(Event::End(e)) => XmlEvent::End(e.name().0.to_string()),
        Ok(Event::Eof) => XmlEvent::Eof,
        Ok(_) => XmlEvent::Other,
        Err(e) => XmlEvent::Error(e.to_string()),
    }
}

/// The message for a reader that hands out more events than the document has bytes (every
/// event but the end of the document takes at least one byte of input, so this does not
/// happen).
pub open spec fn event_limit_message() -> Seq<char> {
    "XML reader produced more events than the document has bytes"@
}

/// Reading the events of `input` from number `i` on, with room for `fuel` more events.
pub open spec fn run_document(input: Seq<char>, i: nat, fuel: nat, b: BuilderView) -> Result<
    BuilderView,
    Seq<char>,
>
    decreases fuel,
{
    if fuel == 0 {
        Err(event_limit_message())
    } else {
        match xml_event_at(input, i) {
            XmlEventView::Eof => Ok(b),
            XmlEventView::Error(m) => Err(m),
            _ => run_document(input, i + 1, (fuel - 1) as nat, step_spec(b, xml_event_at(input, i))),
        }
    }
}

/// The events of `input` numbered `i` to `i + n - 1`.
pub open spec fn document_events(input: Seq<char>, i: nat, n: nat) -> Seq<XmlEventView> {
    Seq::new(n, |j: int| xml_event_at(input, (i + j) as nat))
}

/// The end of the document or a reader error comes among the events numbered `i` to
/// `i + fuel - 1`.
pub open spec fn ends_within(input: Seq<char>, i: nat, fuel: nat) -> bool {
    exists|j: int|
        0 <= j < fuel && (#[trigger] xml_event_at(input, (i + j) as nat) is Eof || xml_event_at(
            input,
            (i + j) as nat,
        ) is Error)
}

/// Reading a document is reading the list of its events, once the end of the document or an
/// error comes within the room for events.
pub proof fn lemma_document_as_event_list(input: Seq<char>, i: nat, fuel: nat, b: BuilderView)
    requires
        ends_within(input, i, fuel),
    ensures
        run_document(input, i, fuel, b) == run_events(b, document_events(input, i, fuel)),
    decreases fuel,
{
    let evs = document_events(input, i, fuel);
    let j = choose|j: int|
        0 <= j < fuel && (#[trigger] xml_event_at(input, (i + j) as nat) is Eof || xml_event_at(
            input,
            (i + j) as nat,
        ) is Error);
    assert(fuel > 0);
    assert(evs[0] == xml_event_at(input, i));
    match xml_event_at(input, i) {
        XmlEventView::Eof => {},
        XmlEventView::Error(_) => {},
        _ => {
            assert(j > 0);
            assert(xml_event_at(input, ((i + 1) as nat + (j - 1)) as nat) == xml_event_at(input, (i + j) as nat));
            assert(ends_within(input, (i + 1) as nat, (fuel - 1) as nat));
            assert(evs.drop_first() =~= document_events(input, (i + 1) as nat, (fuel - 1) as nat));
            lemma_document_as_event_list(input, (i + 1) as nat, (fuel - 1) as nat, step_spec(b, evs[0]));
        },
    }
}

/// Room for events when reading `xml`: one more than its length in bytes.
pub open spec fn document_fuel(xml: &str) -> nat {
    (xml.spec_bytes().len() as usize) as nat + 1
}

/// Parse an OpenTCS plant-model document into points and paths (see [`MapBuilder::step`] for
/// what each tag contributes); a reader error becomes [`MapError::Xml`] with its message.
pub fn parse_opentcs_model_xml(xml: &str) -> (r: Result<MapModel, MapError>)
    ensures
        outcome_holds(r, run_document(xml@, 0, document_fuel(xml), builder_start())),
        r matches Ok(m) ==> maps_consistent(m.points@, m.paths@),
{
    let mut reader = XmlEventReader::new(xml);
    let mut b = MapBuilder::new();
    let mut fuel_left: usize = xml.len();
    let ghost mut n: nat = 0;
    loop
        invariant
            reader.input() == xml@,
            reader.consumed() == n,
            run_document(xml@, 0, document_fuel(xml), builder_start()) == run_document(
                xml@,
                n,
                fuel_left as nat + 1,
                b@,
            ),
            builder_consistent(b@),
        decreases fuel_left,
    {
        let ev = reader.next_event();
        match &ev {
            XmlEvent::Eof => {
                let m = b.finish();
                return Ok(m);
            },
            XmlEvent::Error(msg) => {
                return Err(MapError::Xml(msg.clone()));
            },
            _ => {
                proof {
                    lemma_step_consistent(b@, ev@);
                }
                b.step(&ev);
            },
        }
        if fuel_left == 0 {
            assert(run_document(xml@, n + 1, 0, b@) == Err::<BuilderView, Seq<char>>(event_limit_message()));
            return Err(
                MapError::Xml(
                    String::from_str("XML reader produced more events than the document has bytes"),
                ),
            );
        }
        fuel_left = fuel_left - 1;
        proof {
            n = n + 1;
        }
    }
}

/// The value of the last readable attribute whose key is exactly `key`, if there is one.
pub open spec fn last_value(attrs: Seq<Option<(Seq<char>, Seq<char>)>>, key: Seq<char>) -> Option<Seq<char>>
    decreases attrs.len(),
{
    if attrs.len() == 0 {
        None
    } else {
        match attrs.last() {
            Some((k, v)) => if k == key {
                Some(v)
            } else {
                last_value(attrs.drop_last(), key)
            },
            None => last_value(attrs.drop_last(), key),
        }
    }
}

/// `o`'s text, or `d` when there is none.
pub open spec fn text_or(o: Option<Seq<char>>, d: Seq<char>) -> Seq<char> {
    match o {
        Some(v) => v,
        None => d,
    }
}

/// `o`, or `d` when it is `None`.
pub open spec fn value_or(o: Option<Seq<char>>, d: Option<Seq<char>>) -> Option<Seq<char>> {
    match o {
        Some(v) => Some(v),
        None => d,
    }
}

/// A point tag's name is its last `name` attribute, its x its last `positionX` and its y its
/// last `positionY`; what is not given keeps its value; attributes with other keys (such as
/// `positionZ` or `type`) change nothing.
pub proof fn lemma_point_attrs_by_key(attrs: Seq<Option<(Seq<char>, Seq<char>)>>, acc: PointAttrs)
    ensures
        point_attrs(attrs, acc) == (
            text_or(last_value(attrs, "name"@), acc.0),
            value_or(last_value(attrs, "positionX"@), acc.1),
            value_or(last_value(attrs, "positionY"@), acc.2),
        ),
    decreases attrs.len(),
{
    reveal_strlit("name");
    reveal_strlit("positionX");
    reveal_strlit("positionY");
    assert("positionX"@[8] != "positionY"@[8]);
    assert("name"@.len() != "positionX"@.len());
    assert("name"@.len() != "positionY"@.len());
    if attrs.len() > 0 {
        lemma_point_attrs_by_key(attrs.drop_last(), acc);
    }
}

/// A control point's x is its last `x` attribute and its y its last `y` attribute; other
/// keys change nothing.
pub proof fn lemma_layout_attrs_by_key(attrs: Seq<Option<(Seq<char>, Seq<char>)>>)
    ensures
        layout_attrs(attrs) == (LayoutPointView { x: last_value(attrs, "x"@), y: last_value(attrs, "y"@) }),
    decreases attrs.len(),
{
    reveal_strlit("x");
    reveal_strlit("y");
    assert("x"@[0] != "y"@[0]);
    if attrs.len() > 0 {
        lemma_layout_attrs_by_key(attrs.drop_last());
    }
}

/// A path tag's name, source and destination are its last `name`, `sourcePoint` and
/// `destinationPoint` attributes (empty when absent); its length is its last `length` and its
/// maximum velocity its last `maxVelocity` attribute; attributes with other keys (such as
/// `maxReverseVelocity`) change nothing; it starts with no control points.
pub proof fn lemma_path_attrs_by_key(attrs: Seq<Option<(Seq<char>, Seq<char>)>>)
    ensures
        path_attrs(attrs).name == text_or(last_value(attrs, "name"@), Seq::empty()),
        path_attrs(attrs).source == text_or(last_value(attrs, "sourcePoint"@), Seq::empty()),
        path_attrs(attrs).dest == text_or(last_value(attrs, "destinationPoint"@), Seq::empty()),
        path_attrs(attrs).length == last_value(attrs, "length"@),
        path_attrs(attrs).max_velocity == last_value(attrs, "maxVelocity"@),
        path_attrs(attrs).layout == Seq::<LayoutPointView>::empty(),
    decreases attrs.len(),
{
    reveal_strlit("name");
    reveal_strlit("sourcePoint");
    reveal_strlit("destinationPoint");
    reveal_strlit("length");
    reveal_strlit("maxVelocity");
    assert("sourcePoint"@[0] != "maxVelocity"@[0]);
    assert("name"@.len() == 4 && "sourcePoint"@.len() == 11 && "destinationPoint"@.len() == 16);
    assert("length"@.len() == 6 && "maxVelocity"@.len() == 11);
    if attrs.len() > 0 {
        lemma_path_attrs_by_key(attrs.drop_last());
    }
}

/// An empty `point` tag whose `name` attribute is not empty files, under that name, the point
/// whose x and y are its `positionX` and `positionY` attributes; the other points stay.
pub proof fn lemma_point_element(b: BuilderView, t: XmlTagView)
    requires
        t.name == "point"@,
        last_value(t.attributes, "name"@) is Some,
        last_value(t.attributes, "name"@).unwrap().len() > 0,
    ensures
        step_spec(b, XmlEventView::Empty(t)).points == b.points.insert(
            last_value(t.attributes, "name"@).unwrap(),
            MapPointView {
                position_x: last_value(t.attributes, "positionX"@),
                position_y: last_value(t.attributes, "positionY"@),
            },
        ),
{
    lemma_point_attrs_by_key(t.attributes, (Seq::empty(), None, None));
}

/// A `path` element with a non-empty name whose end points are known files, under that name,
/// a path from its `sourcePoint` to its `destinationPoint`, with its `length` and its
/// `maxVelocity` attributes, the end points as the model holds them and no control points;
/// the points stay as they are.
pub proof fn lemma_path_element(b: BuilderView, t: XmlTagView)
    requires
        t.name == "path"@,
        text_or(last_value(t.attributes, "name"@), Seq::empty()).len() > 0,
        b.points.dom().contains(text_or(last_value(t.attributes, "sourcePoint"@), Seq::empty())),
        b.points.dom().contains(text_or(last_value(t.attributes, "destinationPoint"@), Seq::empty())),
    ensures
        ({
            let a = t.attributes;
            let n = text_or(last_value(a, "name"@), Seq::empty());
            let src = text_or(last_value(a, "sourcePoint"@), Seq::empty());
            let dst = text_or(last_value(a, "destinationPoint"@), Seq::empty());
            let b2 = step_spec(step_spec(b, XmlEventView::Start(t)), XmlEventView::End("path"@));
            &&& b2.points == b.points
            &&& b2.paths.dom().contains(n)
            &&& b2.paths[n].name == n
            &&& b2.paths[n].source == src
            &&& b2.paths[n].dest == dst
            &&& b2.paths[n].length == last_value(a, "length"@)
            &&& b2.paths[n].max_velocity == last_value(a, "maxVelocity"@)
            &&& b2.paths[n].source_point == b.points[src]
            &&& b2.paths[n].dest_point == b.points[dst]
            &&& b2.paths[n].layout_control_points == Seq::<LayoutPointView>::empty()
        }),
{
    reveal_strlit("path");
    reveal_strlit("point");
    reveal_strlit("pathLayout");
    assert("path"@[1] != "point"@[1]);
    assert("path"@.len() != "pathLayout"@.len());
    lemma_path_attrs_by_key(t.attributes);
}

} // verus!
