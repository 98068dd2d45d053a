use vda_sim::config::MapNamePrefixes;
use vda_sim::map::model::MapModel;
use vda_sim::map::opentcs_xml::{
    model_from_events, parse_opentcs_model_xml, XmlAttribute, XmlEvent, XmlEventReader, XmlTag,
};
use vda_sim::map::{load_map_from_xml, validate_map_name_prefixes, MapError};

const PLANT: &str = r#"<?xml version="1.0" encoding="UTF-8"?>
<model version="6.0" name="demo">
  <point name="Point_1" positionX="1000" positionY="2000" type="HALT_POSITION">
    <outgoingPath name="Path_1"/>
  </point>
  <point name="Point_2" positionX="3000" positionY="-500"/>
  <point name="Point_3" positionY="7"/>
  <path name="Path_1" sourcePoint="Point_1" destinationPoint="Point_2" length="2500" maxVelocity="1000">
    <pathLayout connectionType="POLYPATH">
      <controlPoint x="10" y="20"/>
      <controlPoint x="30" y="40"/>
    </pathLayout>
  </path>
  <path name="Path_2" sourcePoint="Point_2" destinationPoint="Point_1" length="2500"/>
  <path name="Path_3" sourcePoint="Point_2" destinationPoint="Point_1">
  </path>
  <path name="Path_4" sourcePoint="Point_2" destinationPoint="Point_9">
  </path>
</model>
"#;

fn prefixes(apply: bool, point: &str, path: &str) -> MapNamePrefixes {
    MapNamePrefixes { apply_stripping: apply, point_prefix: point.to_string(), path_prefix: path.to_string() }
}

fn text(o: &Option<String>) -> Option<&str> {
    o.as_deref()
}

#[test]
fn parses_points_with_and_without_children() {
    let m = parse_opentcs_model_xml(PLANT).unwrap();
    let p1 = m.points.get("Point_1").unwrap();
    assert_eq!(text(&p1.position_x), Some("1000"));
    assert_eq!(text(&p1.position_y), Some("2000"));
    let p2 = m.points.get("Point_2").unwrap();
    assert_eq!(text(&p2.position_x), Some("3000"));
    assert_eq!(text(&p2.position_y), Some("-500"));
    assert_eq!(m.points.len(), 3);
}

#[test]
fn start_tag_point_keeps_previous_coordinate_when_missing() {
    // Point_3 is an empty-element tag: a missing coordinate stays absent.
    let m = parse_opentcs_model_xml(PLANT).unwrap();
    let p3 = m.points.get("Point_3").unwrap();
    assert_eq!(text(&p3.position_x), None);
    assert_eq!(text(&p3.position_y), Some("7"));
    // A point written with a closing tag keeps the x of the point read before it.
    let xml = r#"<model><point name="A" positionX="5" positionY="6"></point><point name="B" positionY="1"></point></model>"#;
    let m = parse_opentcs_model_xml(xml).unwrap();
    let b = m.points.get("B").unwrap();
    assert_eq!(text(&b.position_x), Some("5"));
    assert_eq!(text(&b.position_y), Some("1"));
}

#[test]
fn paths_need_known_end_points() {
    let m = parse_opentcs_model_xml(PLANT).unwrap();
    let p = m.paths.get("Path_1").unwrap();
    assert_eq!(p.source, "Point_1");
    assert_eq!(p.dest, "Point_2");
    assert_eq!(text(&p.length), Some("2500"));
    assert_eq!(text(&p.max_velocity), Some("1000"));
    assert_eq!(p.layout_control_points.len(), 2);
    assert_eq!(text(&p.layout_control_points[1].x), Some("30"));
    assert_eq!(text(&p.source_point.position_x), Some("1000"));
    assert_eq!(text(&p.dest_point.position_y), Some("-500"));
    // An empty-element path tag is not read.
    assert!(!m.paths.contains_key("Path_2"));
    // A path with a closing tag and known points is kept, without control points.
    let p3 = m.paths.get("Path_3").unwrap();
    assert_eq!(p3.layout_control_points.len(), 0);
    assert_eq!(text(&p3.max_velocity), None);
    // Point_9 is unknown.
    assert!(!m.paths.contains_key("Path_4"));
    assert_eq!(m.paths.len(), 2);
}

#[test]
fn parsed_model_has_no_stripping() {
    let m = parse_opentcs_model_xml(PLANT).unwrap();
    assert!(!m.name_prefixes.apply_stripping);
    assert_eq!(m.name_prefixes.point_prefix, "");
}

#[test]
fn path_declared_before_its_points_is_dropped() {
    let xml = r#"<model><path name="P" sourcePoint="A" destinationPoint="B"></path><point name="A"/><point name="B"/></model>"#;
    let m = parse_opentcs_model_xml(xml).unwrap();
    assert_eq!(m.points.len(), 2);
    assert_eq!(m.paths.len(), 0);
}

#[test]
fn unnamed_points_and_paths_are_dropped() {
    let xml = r#"<model><point positionX="1"/><point name="A"/><point name="B"/><path sourcePoint="A" destinationPoint="B"></path></model>"#;
    let m = parse_opentcs_model_xml(xml).unwrap();
    assert_eq!(m.points.len(), 2);
    assert_eq!(m.paths.len(), 0);
}

#[test]
fn duplicate_point_names_keep_the_last() {
    let xml = r#"<model><point name="A" positionX="1"/><point name="A" positionX="2"/></model>"#;
    let m = parse_opentcs_model_xml(xml).unwrap();
    assert_eq!(m.points.len(), 1);
    assert_eq!(text(&m.points.get("A").unwrap().position_x), Some("2"));
}

#[test]
fn malformed_xml_is_an_xml_error() {
    let r = parse_opentcs_model_xml("<model><point name=\"A\"></model>");
    assert!(matches!(r, Err(MapError::Xml(_))));
}

#[test]
fn empty_document_is_an_empty_model() {
    let m = parse_opentcs_model_xml("").unwrap();
    assert_eq!(m.points.len(), 0);
    assert_eq!(m.paths.len(), 0);
}

#[test]
fn reader_hands_out_events_in_order() {
    let mut r = XmlEventReader::new(r#"<a x="1"><b/></a>"#);
    match r.next_event() {
        XmlEvent::Start(t) => {
            assert_eq!(t.name, "a");
            assert_eq!(t.attributes.len(), 1);
            let a = t.attributes[0].as_ref().unwrap();
            assert_eq!((a.key.as_str(), a.value.as_str()), ("x", "1"));
        }
        e => panic!("unexpected {:?}", e),
    }
    assert!(matches!(r.next_event(), XmlEvent::Empty(t) if t.name == "b"));
    assert!(matches!(r.next_event(), XmlEvent::End(n) if n == "a"));
    assert!(matches!(r.next_event(), XmlEvent::Eof));
}

fn tag(name: &str, attrs: &[(&str, &str)]) -> XmlTag {
    XmlTag {
        name: name.to_string(),
        attributes: attrs
            .iter()
            .map(|(k, v)| Some(XmlAttribute { key: k.to_string(), value: v.to_string() }))
            .collect(),
    }
}

#[test]
fn events_build_a_model() {
    let events = vec![
        XmlEvent::Empty(tag("point", &[("name", "A"), ("positionX", "1")])),
        XmlEvent::Empty(tag("point", &[("name", "B")])),
        XmlEvent::Start(tag("path", &[("name", "P"), ("sourcePoint", "A"), ("destinationPoint", "B")])),
        XmlEvent::Start(tag("pathLayout", &[])),
        XmlEvent::Empty(tag("controlPoint", &[("x", "1"), ("y", "2")])),
        XmlEvent::End("pathLayout".to_string()),
        XmlEvent::Empty(tag("controlPoint", &[("x", "9")])),
        XmlEvent::End("path".to_string()),
        XmlEvent::Eof,
        XmlEvent::Empty(tag("point", &[("name", "C")])),
    ];
    let m = model_from_events(&events).unwrap();
    assert_eq!(m.points.len(), 2);
    let p = m.paths.get("P").unwrap();
    assert_eq!(p.layout_control_points.len(), 1);
    assert_eq!(text(&p.layout_control_points[0].y), Some("2"));
}

#[test]
fn events_stop_at_an_error() {
    let events = vec![
        XmlEvent::Empty(tag("point", &[("name", "A")])),
        XmlEvent::Error("broken".to_string()),
    ];
    assert_eq!(model_from_events(&events).err(), Some(MapError::Xml("broken".to_string())));
}

#[test]
fn rejected_attributes_are_skipped() {
    let events = vec![XmlEvent::Empty(XmlTag {
        name: "point".to_string(),
        attributes: vec![None, Some(XmlAttribute { key: "name".to_string(), value: "A".to_string() })],
    })];
    let m = model_from_events(&events).unwrap();
    assert!(m.points.contains_key("A"));
}

#[test]
fn validation_of_name_prefixes() {
    assert!(validate_map_name_prefixes(&prefixes(false, "P", "Q")).is_ok());
    assert!(validate_map_name_prefixes(&prefixes(true, "Point_", "Path_")).is_ok());
    assert_eq!(
        validate_map_name_prefixes(&prefixes(true, "Point", "Path_")),
        Err(MapError::Io("map.name_prefixes.point_prefix must end with '_', got: Point".to_string()))
    );
    assert_eq!(
        validate_map_name_prefixes(&prefixes(true, "Point_", "Path")),
        Err(MapError::Io("map.name_prefixes.path_prefix must end with '_', got: Path".to_string()))
    );
    assert_eq!(
        validate_map_name_prefixes(&prefixes(true, "", "")),
        Err(MapError::Io("map.name_prefixes.point_prefix must end with '_', got: ".to_string()))
    );
}

#[test]
fn load_checks_prefixes_then_reads() {
    let m = load_map_from_xml(PLANT, prefixes(true, "Point_", "Path_")).unwrap();
    assert!(m.name_prefixes.apply_stripping);
    assert_eq!(m.paths.len(), 2);
    assert!(matches!(load_map_from_xml(PLANT, prefixes(true, "Point", "Path_")), Err(MapError::Io(_))));
    assert!(matches!(load_map_from_xml("<a></b>", prefixes(false, "", "")), Err(MapError::Xml(_))));
}

fn stripping_model() -> MapModel {
    load_map_from_xml(PLANT, prefixes(true, "Point_", "Path_")).unwrap()
}

#[test]
fn point_names_resolve_by_id() {
    let m = stripping_model();
    assert_eq!(m.resolve_point_key("Point_1").as_deref(), Some("Point_1"));
    assert_eq!(m.resolve_point_key("1").as_deref(), Some("Point_1"));
    assert_eq!(m.resolve_point_key(" 2 ").as_deref(), Some("Point_2"));
    assert_eq!(m.resolve_point_key("Station_2").as_deref(), Some("Point_2"));
    assert_eq!(m.resolve_point_key("0"), None);
    assert_eq!(m.resolve_point_key("-1"), None);
    assert_eq!(m.resolve_point_key("9"), None);
    let p = m.point_world("2").unwrap();
    assert_eq!(p.position_x.as_deref(), Some("3000"));
    assert!(m.point_world("Point_8").is_none());
}

#[test]
fn without_stripping_names_must_match() {
    let m = parse_opentcs_model_xml(PLANT).unwrap();
    assert_eq!(m.resolve_point_key("1"), None);
    assert_eq!(m.resolve_point_key("Point_1").as_deref(), Some("Point_1"));
    assert!(m.point_world("1").is_none());
}

#[test]
fn edges_resolve_by_name_then_by_end_points() {
    let m = stripping_model();
    assert_eq!(m.path_for_edge("Path_1", "x", "y").unwrap().name, "Path_1");
    assert_eq!(m.path_for_edge("1", "x", "y").unwrap().name, "Path_1");
    assert_eq!(m.path_for_edge("edge-7", "2", "1").unwrap().name, "Path_3");
    assert_eq!(m.path_for_edge("edge-7", "Point_1", "Point_2").unwrap().name, "Path_1");
    assert!(m.path_for_edge("edge-7", "1", "3").is_none());
    assert!(m.path_for_edge("edge-7", "1", "nowhere").is_none());
    let d = MapModel::default();
    assert!(d.path_for_edge("Path_1", "1", "2").is_none());
}
