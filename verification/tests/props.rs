use wpengine::json::{Json, JsonMap, JsonNum};
use wpengine::props::{
    apply_overrides, as_stringish, check_props_id, is_hidden_prop, launch_overrides,
    merge_override_maps, overrides_of, parse_properties_from_project, to_set_property_flags,
    values_object, workshop_project_in,
};

fn s(x: &str) -> Json {
    Json::Str(x.to_string())
}

fn num(n: u64) -> Json {
    Json::Number(JsonNum::PosInt(n))
}

fn float(t: &str) -> Json {
    Json::Number(JsonNum::Float(t.to_string()))
}

fn obj(entries: Vec<(&str, Json)>) -> Json {
    Json::Object(map(entries))
}

fn map(entries: Vec<(&str, Json)>) -> JsonMap {
    let mut m = JsonMap::new();
    for (k, v) in entries {
        m.insert(k.to_string(), v);
    }
    m
}

fn project(props: Json) -> Json {
    obj(vec![("general", obj(vec![("properties", props)]))])
}

#[test]
fn parses_combo_and_slider() {
    let data = project(obj(vec![
        (
            "clock",
            obj(vec![
                ("type", s("combo")),
                ("text", s("Clock")),
                ("value", s("1")),
                ("order", num(100)),
                (
                    "options",
                    Json::Array(vec![
                        obj(vec![("label", s("12Hr")), ("value", s("1"))]),
                        obj(vec![("label", s("24Hr")), ("value", s("2"))]),
                    ]),
                ),
            ]),
        ),
        (
            "musicvolume",
            obj(vec![
                ("type", s("slider")),
                ("text", s("Music Volume")),
                ("value", float("0.8")),
                ("min", num(0)),
                ("max", num(1)),
                ("step", float("0.1")),
                ("order", num(106)),
            ]),
        ),
        (
            "schemecolor",
            obj(vec![
                ("type", s("color")),
                ("text", s("ui_browse_properties_scheme_color")),
                ("value", s("0 0 0")),
                ("order", num(0)),
            ]),
        ),
    ]));
    let defs = parse_properties_from_project(&data);
    assert_eq!(defs.len(), 3);
    let clock = defs.iter().find(|d| d.key == "clock").unwrap();
    assert_eq!(clock.ptype, "combo");
    assert_eq!(clock.options.as_ref().unwrap().len(), 2);
    let scheme = defs.iter().find(|d| d.key == "schemecolor").unwrap();
    assert!(scheme.hidden);
    let flags = to_set_property_flags(&map(vec![
        ("clock", s("2")),
        ("musicvolume", float("0.5")),
        ("schemecolor", s("1 0 0")),
    ]));
    assert!(flags.iter().any(|(k, v)| k == "clock" && v == "2"));
    assert!(flags.iter().any(|(k, v)| k == "musicvolume" && v == "0.5"));
    assert!(!flags.iter().any(|(k, _)| k == "schemecolor"));
}

#[test]
fn properties_come_in_order_then_key_order() {
    let data = project(obj(vec![
        ("zeta", obj(vec![("type", s("bool")), ("order", num(5))])),
        ("alpha", obj(vec![("type", s("bool")), ("order", num(5))])),
        ("first", obj(vec![("type", s("text")), ("order", num(1))])),
        ("noorder", obj(vec![("type", s("text"))])),
    ]));
    let defs = parse_properties_from_project(&data);
    let keys: Vec<&str> = defs.iter().map(|d| d.key.as_str()).collect();
    assert_eq!(keys, vec!["noorder", "first", "alpha", "zeta"]);
}

#[test]
fn groups_untyped_and_non_objects_are_skipped() {
    let data = project(obj(vec![
        ("section", obj(vec![("type", s("group"))])),
        ("untyped", obj(vec![("text", s("No type"))])),
        ("blank", obj(vec![("type", s(""))])),
        ("loose", s("not an object")),
        ("upper", obj(vec![("type", s("SLIDER"))])),
    ]));
    let defs = parse_properties_from_project(&data);
    assert_eq!(defs.len(), 1);
    assert_eq!(defs[0].key, "upper");
    assert_eq!(defs[0].ptype, "slider");
    // the text defaults to the key, the value to null
    assert_eq!(defs[0].text, "upper");
    assert!(defs[0].value.is_null());
}

#[test]
fn order_falls_back_to_index() {
    let data = project(obj(vec![
        ("a", obj(vec![("type", s("bool")), ("index", num(7))])),
        ("b", obj(vec![("type", s("bool")), ("order", float("1.5")), ("index", num(3))])),
        ("c", obj(vec![("type", s("bool")), ("order", Json::Number(JsonNum::NegInt(-2)))])),
    ]));
    let defs = parse_properties_from_project(&data);
    let got: Vec<(&str, i64)> = defs.iter().map(|d| (d.key.as_str(), d.order)).collect();
    assert_eq!(got, vec![("c", -2), ("b", 3), ("a", 7)]);
}

#[test]
fn combo_choices_take_numbers_and_booleans() {
    let data = project(obj(vec![(
        "mode",
        obj(vec![
            ("type", s("combo")),
            (
                "options",
                Json::Array(vec![
                    obj(vec![("label", s("One")), ("value", num(1))]),
                    obj(vec![("label", s("Yes")), ("value", Json::Bool(true))]),
                    obj(vec![("value", s("x"))]),
                    obj(vec![("label", s("Skipped")), ("value", Json::Null)]),
                    s("not an option"),
                ]),
            ),
        ]),
    )]));
    let defs = parse_properties_from_project(&data);
    let opts = defs[0].options.as_ref().unwrap();
    let got: Vec<(&str, &str)> = opts.iter().map(|o| (o.label.as_str(), o.value.as_str())).collect();
    assert_eq!(got, vec![("One", "1"), ("Yes", "true"), ("", "x")]);
}

#[test]
fn missing_properties_give_nothing() {
    assert_eq!(parse_properties_from_project(&obj(vec![])).len(), 0);
    assert_eq!(parse_properties_from_project(&obj(vec![("general", s("x"))])).len(), 0);
    assert_eq!(parse_properties_from_project(&project(Json::Array(vec![]))).len(), 0);
}

#[test]
fn bounds_keep_their_numbers() {
    let data = project(obj(vec![(
        "v",
        obj(vec![("type", s("slider")), ("min", num(0)), ("max", float("2.5")), ("step", s("x"))]),
    )]));
    let defs = parse_properties_from_project(&data);
    assert_eq!(defs[0].min.as_ref().unwrap().to_text(), "0");
    assert_eq!(defs[0].max.as_ref().unwrap().to_text(), "2.5");
    assert!(defs[0].step.is_none());
}

#[test]
fn hidden_props() {
    assert!(is_hidden_prop("SchemeColor", "Color"));
    assert!(is_hidden_prop("x", "ui_browse_properties_anything"));
    assert!(is_hidden_prop("x", "UI_BROWSE_PROPERTIES_SCHEME_COLOR"));
    assert!(!is_hidden_prop("x", "UI_BROWSE_PROPERTIES_OTHER"));
    assert!(!is_hidden_prop("clock", "Clock"));
}

#[test]
fn flags_render_each_kind_of_value() {
    let flags = to_set_property_flags(&map(vec![
        ("", s("ignored")),
        ("on", Json::Bool(true)),
        ("off", Json::Bool(false)),
        ("n", num(42)),
        ("neg", Json::Number(JsonNum::NegInt(-3))),
        ("list", Json::Array(vec![num(1), s("a\"b")])),
        ("nothing", Json::Null),
        ("o", obj(vec![("k", Json::Null)])),
    ]));
    let got: Vec<(&str, &str)> = flags.iter().map(|(k, v)| (k.as_str(), v.as_str())).collect();
    assert_eq!(
        got,
        vec![
            ("list", "[1,\"a\\\"b\"]"),
            ("n", "42"),
            ("neg", "-3"),
            ("o", "{\"k\":null}"),
            ("off", "0"),
            ("on", "1"),
        ]
    );
}

#[test]
fn stringish_values() {
    assert_eq!(as_stringish(&Json::Null), "");
    assert_eq!(as_stringish(&s("text")), "text");
    assert_eq!(as_stringish(&Json::Bool(false)), "0");
    assert_eq!(as_stringish(&float("0.25")), "0.25");
}

#[test]
fn merge_null_removes_and_values_replace() {
    let base = map(vec![("a", num(1)), ("b", num(2)), ("c", num(3))]);
    let patch = obj(vec![("b", Json::Null), ("c", s("x")), ("d", Json::Bool(true)), ("e", Json::Null)]);
    let out = merge_override_maps(base, &patch);
    assert_eq!(Json::Object(out).to_text(), "{\"a\":1,\"c\":\"x\",\"d\":true}");
}

#[test]
fn merge_with_a_non_object_changes_nothing() {
    let base = map(vec![("a", num(1))]);
    let out = merge_override_maps(base, &Json::Array(vec![num(5)]));
    assert_eq!(Json::Object(out).to_text(), "{\"a\":1}");
}

#[test]
fn launch_overrides_merge_only_a_payload() {
    let saved = map(vec![("a", num(1))]);
    let kept = launch_overrides(saved, None);
    assert_eq!(Json::Object(kept).to_text(), "{\"a\":1}");
    let saved = map(vec![("a", num(1))]);
    let patch = obj(vec![("a", num(2))]);
    let merged = launch_overrides(saved, Some(&patch));
    assert_eq!(Json::Object(merged).to_text(), "{\"a\":2}");
}

#[test]
fn overrides_of_parsed_files() {
    assert_eq!(overrides_of(None).len(), 0);
    assert_eq!(overrides_of(Some(Json::Array(vec![]))).len(), 0);
    let m = overrides_of(Some(obj(vec![("k", num(1))])));
    assert_eq!(m.len(), 1);
}

#[test]
fn saved_overrides_replace_defaults() {
    let data = project(obj(vec![
        ("a", obj(vec![("type", s("bool")), ("value", Json::Bool(false))])),
        ("b", obj(vec![("type", s("text")), ("value", s("dflt"))])),
    ]));
    let mut defs = parse_properties_from_project(&data);
    apply_overrides(&mut defs, &map(vec![("a", Json::Bool(true)), ("zzz", num(1))]));
    assert_eq!(defs[0].value.to_text(), "true");
    assert_eq!(defs[1].value.to_text(), "\"dflt\"");
    assert_eq!(values_object(&defs).to_text(), "{\"a\":true,\"b\":\"dflt\"}");
}

#[test]
fn props_ids_are_digits() {
    assert!(check_props_id("123").is_ok());
    assert!(check_props_id("").is_ok());
    assert_eq!(check_props_id("12a").unwrap_err(), "invalid id");
    assert_eq!(check_props_id("../1").unwrap_err(), "invalid id");
}

#[test]
fn project_json_of_an_item() {
    assert_eq!(
        workshop_project_in("/home/u", "42"),
        "/home/u/.local/share/Steam/steamapps/workshop/content/431960/42/project.json"
    );
}
