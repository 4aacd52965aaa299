use viceptica::mesh::flags;
use viceptica::prefab::json::{get_bool_or_default, get_i32_or_default, get_string_or_default, Json};
use viceptica::prefab::{
    component_kind, component_readable_check, read_prefab_text, parse_kernel, parse_matrix, parse_render_flags, parse_within, prefab_readable_check, ComponentKind, PrefabRenderable,
    TransformForm, TriggerKind, UserPrefab,
};

fn s(text: &str) -> Json {
    Json::Str(text.to_string())
}

fn num(n: i64) -> Json {
    Json::Number(Some(n), n.to_string())
}

fn float(text: &str) -> Json {
    Json::Number(None, text.to_string())
}

fn arr(items: Vec<Json>) -> Json {
    Json::Array(items)
}

fn obj(entries: Vec<(&str, Json)>) -> Json {
    Json::Object(entries.into_iter().map(|(k, v)| (k.to_string(), v)).collect())
}

fn row(n: usize) -> Json {
    arr((0..n).map(|_| num(1)).collect())
}

fn grid(n: usize) -> Json {
    arr((0..n).map(|_| row(n)).collect())
}

fn err<T: std::fmt::Debug>(r: Result<T, String>) -> String {
    r.unwrap_err()
}

#[test]
fn render_flags_from_names() {
    let names = arr(vec![s("cutout"), num(3), s("skip"), s("bogus")]);
    assert_eq!(parse_render_flags(&names), flags::CUTOUT | flags::SKIP);
    assert_eq!(parse_render_flags(&names), 12);
    let all = arr(vec![s("extend_texture"), s("fullbright"), s("fullbright")]);
    assert_eq!(parse_render_flags(&all), 3);
    assert_eq!(parse_render_flags(&s("cutout")), flags::NONE);
    assert_eq!(parse_render_flags(&arr(vec![])), 0);
}

#[test]
fn fields_with_defaults() {
    let j = obj(vec![("a", Json::Bool(true)), ("b", num(-7)), ("c", s("x")), ("d", float("1.5")), ("a", Json::Bool(false))]);
    assert!(get_bool_or_default(&j, "a", false));
    assert!(get_bool_or_default(&j, "b", true));
    assert!(!get_bool_or_default(&j, "missing", false));
    assert_eq!(get_i32_or_default(&j, "b", 60), -7);
    assert_eq!(get_i32_or_default(&j, "d", 60), 60);
    assert_eq!(get_i32_or_default(&obj(vec![("b", num(1 << 32 | 5))]), "b", 0), 5);
    assert_eq!(get_string_or_default(&j, "c", "y"), "x");
    assert_eq!(get_string_or_default(&j, "b", "y"), "y");
    assert_eq!(get_string_or_default(&arr(vec![]), "c", "y"), "y");
    assert!(j.get("missing").is_none());
    assert!(s("a").get("a").is_none());
}

#[test]
fn transform_forms_and_errors() {
    assert_eq!(parse_within(&obj(vec![])), Ok(TransformForm::Components));
    assert_eq!(parse_within(&obj(vec![("transform", grid(4))])), Ok(TransformForm::Matrix));
    assert_eq!(
        parse_within(&obj(vec![("transform", num(1))])),
        Err("Error at prefab transform: expected a matrix [[f32; 4]; 4]".to_string())
    );
    assert_eq!(
        parse_within(&obj(vec![("transform", grid(3))])),
        Err("Error at prefab transform: matrix did not have 4 rows".to_string())
    );
    let mut rows = vec![grid(4)];
    if let Json::Array(r) = rows.pop().unwrap() {
        let mut r = r;
        r[2] = num(0);
        assert_eq!(
            parse_within(&obj(vec![("transform", arr(r))])),
            Err("Error at prefab transform: a matrix row was not an array".to_string())
        );
    }
    let short = arr(vec![row(4), row(4), row(3), num(0)]);
    assert_eq!(
        parse_within(&obj(vec![("transform", short)])),
        Err("Error at prefab transform: a matrix row was not 4 elements long".to_string())
    );
}

#[test]
fn renderables_by_type() {
    match PrefabRenderable::parse(&obj(vec![("type", s("brush")), ("flags", arr(vec![s("skip")]))])).unwrap() {
        PrefabRenderable::Brush { material, flags } => {
            assert_eq!(material, "rust");
            assert_eq!(flags, flags::SKIP);
        },
        other => panic!("{:?}", other),
    }
    match PrefabRenderable::parse(&obj(vec![("type", s("mesh")), ("mesh", s("cube"))])).unwrap() {
        PrefabRenderable::Mesh { transform, mesh, flags } => {
            assert_eq!(transform, TransformForm::Components);
            assert_eq!(mesh, "cube");
            assert_eq!(flags, 0);
        },
        other => panic!("{:?}", other),
    }
    match PrefabRenderable::parse(&obj(vec![("type", s("billboard")), ("follow_vertical", Json::Bool(true))])).unwrap() {
        PrefabRenderable::Billboard { image, flags, follow_vertical } => {
            assert_eq!(image, "error");
            assert_eq!(flags, 0);
            assert!(follow_vertical);
        },
        other => panic!("{:?}", other),
    }
    match PrefabRenderable::parse(&obj(vec![("type", s("obj")), ("obj", s("tree")), ("transform", grid(4))])).unwrap() {
        PrefabRenderable::InsertObj { transform, obj, .. } => {
            assert_eq!(transform, TransformForm::Matrix);
            assert_eq!(obj, "tree");
        },
        other => panic!("{:?}", other),
    }
    assert_eq!(err(PrefabRenderable::parse(&obj(vec![]))), "Error at prefab render: no type found");
    assert_eq!(err(PrefabRenderable::parse(&obj(vec![("type", num(1))]))), "Error in prefab render: type was not a string");
    assert_eq!(err(PrefabRenderable::parse(&obj(vec![("type", s("sphere"))]))), "Error in prefab render: invalid renderable type");
    assert_eq!(
        err(PrefabRenderable::parse(&obj(vec![("type", s("mesh")), ("transform", s("no"))]))),
        "Error at prefab transform: expected a matrix [[f32; 4]; 4]"
    );
}

#[test]
fn components_by_type() {
    assert!(matches!(component_kind(&obj(vec![("type", s("spawnpoint"))])), Ok(ComponentKind::Spawnpoint)));
    assert!(matches!(component_kind(&obj(vec![("type", s("door"))])), Ok(ComponentKind::Door { open_time: 60 })));
    assert!(matches!(component_kind(&obj(vec![("type", s("door")), ("name", num(-25))])), Ok(ComponentKind::Door { open_time: 25 })));
    assert!(matches!(component_kind(&obj(vec![("type", s("trigger")), ("trigger", s("fog"))])), Ok(ComponentKind::Trigger(TriggerKind::Fog))));
    assert!(matches!(
        component_kind(&obj(vec![("type", s("trigger")), ("trigger", s("kernel")), ("kernel", grid(3))])),
        Ok(ComponentKind::Trigger(TriggerKind::Kernel))
    ));
    match component_kind(&obj(vec![("type", s("trigger")), ("trigger", s("test")), ("update", s("u"))])).unwrap() {
        ComponentKind::Trigger(TriggerKind::Test { enter, update, exit }) => {
            assert_eq!((enter.as_str(), update.as_str(), exit.as_str()), ("enter", "u", "exit"));
        },
        other => panic!("{:?}", other),
    }
    assert_eq!(err(component_kind(&obj(vec![]))), "Error at prefab component: no type found");
    assert_eq!(err(component_kind(&obj(vec![("type", Json::Null)]))), "Error in prefab component: type was not a string");
    assert_eq!(err(component_kind(&obj(vec![("type", s("lamp"))]))), "Error in prefab component: invalid component type");
    assert_eq!(err(component_kind(&obj(vec![("type", s("trigger"))]))), "Error in prefab trigger: invalid trigger type");
    assert_eq!(
        err(component_kind(&obj(vec![("type", s("trigger")), ("trigger", s("kernel"))]))),
        "Error in prefab trigger: no kernel specified"
    );
    assert_eq!(
        err(component_kind(&obj(vec![("type", s("trigger")), ("trigger", s("kernel")), ("kernel", float("2.5"))]))),
        "Error at prefab kernel: expected a kernel [[f32; 3]; 3]"
    );
    assert_eq!(
        err(component_kind(&obj(vec![("type", s("trigger")), ("trigger", s("kernel")), ("kernel", grid(4))]))),
        "Error at prefab kernel: kernel did not have 3 rows"
    );
    assert_eq!(
        err(component_kind(&obj(vec![("type", s("trigger")), ("trigger", s("kernel")), ("kernel", arr(vec![arr(vec![num(1), num(1)]), s("x"), s("y")]))]))),
        "Error at prefab kernel: a kernel row was not 3 elements long"
    );
    assert_eq!(
        err(component_kind(&obj(vec![("type", s("trigger")), ("trigger", s("kernel")), ("kernel", arr(vec![s("x"), grid(3), grid(3)]))]))),
        "Error at prefab kernel: a kernel row was not an array"
    );
    assert!(component_readable_check(&obj(vec![("type", s("door")), ("name", num(5))])));
    assert!(!component_readable_check(&obj(vec![("type", s("door")), ("name", num(i32::MIN as i64))])));
    assert!(component_readable_check(&obj(vec![("type", s("spawnpoint")), ("name", num(i32::MIN as i64))])));
}

#[test]
fn whole_prefab() {
    let j = obj(vec![
        ("solid", Json::Bool(true)),
        ("mobile", s("no")),
        ("render", arr(vec![obj(vec![("type", s("brush")), ("material", s("stone"))]), obj(vec![("type", s("billboard"))])])),
        ("components", arr(vec![obj(vec![("type", s("spawnpoint"))]), obj(vec![("type", s("door")), ("name", num(9))])])),
    ]);
    assert!(prefab_readable_check(&j));
    let p = UserPrefab::parse(&j).unwrap();
    assert!(!p.hidden && p.solid && !p.foreground && p.mobile);
    assert_eq!(p.transform, TransformForm::Components);
    assert_eq!(p.render.len(), 2);
    assert!(matches!(&p.render[0], PrefabRenderable::Brush { material, .. } if material == "stone"));
    assert!(matches!(p.components[1], ComponentKind::Door { open_time: 9 }));

    let j = obj(vec![("render", s("none")), ("components", num(3))]);
    let p = UserPrefab::parse(&j).unwrap();
    assert!(p.render.is_empty() && p.components.is_empty());

    let j = obj(vec![("render", arr(vec![obj(vec![("type", s("brush"))]), obj(vec![])])), ("transform", grid(4))]);
    assert_eq!(err(UserPrefab::parse(&j)), "Error at prefab render: no type found");
    let j = obj(vec![("transform", grid(2)), ("render", arr(vec![obj(vec![])]))]);
    assert_eq!(err(UserPrefab::parse(&j)), "Error at prefab transform: matrix did not have 4 rows");
    let j = obj(vec![("components", arr(vec![obj(vec![("type", s("spawnpoint"))]), obj(vec![("type", s("x"))])]))]);
    assert_eq!(err(UserPrefab::parse(&j)), "Error in prefab component: invalid component type");

    let bad_door = obj(vec![("type", s("door")), ("name", num(i32::MIN as i64))]);
    assert!(!prefab_readable_check(&obj(vec![("components", arr(vec![bad_door]))])));
    let bad_door = obj(vec![("type", s("door")), ("name", num(i32::MIN as i64))]);
    assert!(prefab_readable_check(&obj(vec![("components", arr(vec![obj(vec![]), bad_door]))])));
}

#[test]
fn matrix_and_kernel_shapes() {
    assert_eq!(parse_matrix(&grid(4)), Ok(()));
    assert_eq!(parse_matrix(&grid(3)), Err("Error at prefab transform: matrix did not have 4 rows".to_string()));
    assert_eq!(parse_kernel(&grid(3)), Ok(()));
    assert_eq!(parse_kernel(&arr(vec![row(3), row(3), row(2)])), Err("Error at prefab kernel: a kernel row was not 3 elements long".to_string()));
    assert_eq!(parse_kernel(&s("k")), Err("Error at prefab kernel: expected a kernel [[f32; 3]; 3]".to_string()));
}

#[test]
fn prefab_texts() {
    let text = r#"{"solid": true, "render": [{"type": "brush", "material": "stone", "origin": [1.5, 2, 3]}],
        "components": [{"type": "door", "name": -12}]}"#;
    let (p, j) = read_prefab_text(text).unwrap().unwrap();
    assert!(p.solid && p.mobile);
    assert!(matches!(&p.render[0], PrefabRenderable::Brush { material, .. } if material == "stone"));
    assert!(matches!(p.components[0], ComponentKind::Door { open_time: 12 }));
    match j.get("render") {
        Some(Json::Array(items)) => match items[0].get("origin") {
            Some(Json::Array(origin)) => {
                assert!(matches!(&origin[0], Json::Number(None, t) if t == "1.5"));
                assert!(matches!(&origin[1], Json::Number(Some(2), t) if t == "2"));
            },
            other => panic!("{:?}", other),
        },
        other => panic!("{:?}", other),
    }
    assert_eq!(read_prefab_text("").unwrap().err(), Some("EOF while parsing a value at line 1 column 0".to_string()));
    assert_eq!(
        read_prefab_text(r#"{"components": [{"type": "lamp"}]}"#).unwrap().err(),
        Some("Error in prefab component: invalid component type".to_string())
    );
    assert!(read_prefab_text(r#"{"components": [{"type": "door", "name": -2147483648}]}"#).is_none());
    assert!(read_prefab_text("[1, 2]").unwrap().is_ok());
}
