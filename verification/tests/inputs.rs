use vardadb::engine::inputs::{
    declared_input_fields_of, filter_type_of, input_shape_of, input_type_of, interface_field_type, object_field_type,
    root_fields_of, Argument, InputField,
};
use vardadb::engine::sdl::{SdlField, SdlKind, SdlType, SdlTypeDef};

fn named(n: &str) -> SdlType {
    SdlType::Named(n.to_string())
}

fn field(name: &str, ty: SdlType) -> SdlField {
    SdlField { name: name.to_string(), ty, required: false, directives: vec![] }
}

fn schema() -> Vec<SdlTypeDef> {
    vec![
        SdlTypeDef { name: "VideoStatus".to_string(), kind: SdlKind::Enum(vec!["NEW".to_string(), "PUBLISHED".to_string()]) },
        SdlTypeDef { name: "Video".to_string(), kind: SdlKind::Object { fields: vec![], implements: vec![] } },
    ]
}

fn scalars() -> Vec<(String, String)> {
    vec![("JSON".to_string(), "JSONFilter".to_string())]
}

fn f(name: &str, t: &str, list: bool) -> InputField {
    InputField { name: name.to_string(), type_label: t.to_string(), list }
}

#[test]
fn enum_fields_take_their_enum_and_filter_like_strings() {
    let defs = schema();
    assert_eq!(input_type_of(&defs, &scalars(), "VideoStatus"), Some("VideoStatus".to_string()));
    assert_eq!(filter_type_of(&defs, &scalars(), "VideoStatus"), Some("StringFilter".to_string()));
}

#[test]
fn each_kind_of_field_gets_its_input_and_filter_type() {
    let defs = schema();
    let s = scalars();
    assert_eq!(input_type_of(&defs, &s, "ID"), None);
    assert_eq!(filter_type_of(&defs, &s, "ID"), None);
    assert_eq!(input_type_of(&defs, &s, "String"), Some("String".to_string()));
    assert_eq!(filter_type_of(&defs, &s, "String"), Some("StringFilter".to_string()));
    assert_eq!(input_type_of(&defs, &s, "GeoPoint"), Some("GeoPointInput".to_string()));
    assert_eq!(input_type_of(&defs, &s, "Polygon"), Some("PolygonInput".to_string()));
    assert_eq!(input_type_of(&defs, &s, "JSON"), Some("JSON".to_string()));
    assert_eq!(filter_type_of(&defs, &s, "JSON"), Some("JSONFilter".to_string()));
    assert_eq!(input_type_of(&defs, &s, "User"), Some("UserInput".to_string()));
    assert_eq!(filter_type_of(&defs, &s, "User"), Some("UserFilter".to_string()));
}

#[test]
fn video_input_filter_and_sort_shapes() {
    let defs = schema();
    let fields = vec![
        field("id", named("ID")),
        field("status", named("VideoStatus")),
        field("tags", SdlType::List(Box::new(named("String")))),
        field("author", named("User")),
    ];
    let shape = input_shape_of(&defs, &scalars(), "Video", &fields);
    assert_eq!(
        shape.input,
        vec![
            f("uid", "ID", false),
            f("id", "ID", false),
            f("status", "VideoStatus", false),
            f("tags", "String", true),
            f("author", "UserInput", false),
        ]
    );
    assert_eq!(
        shape.filter,
        vec![
            f("status", "StringFilter", false),
            f("tags", "StringFilter", false),
            f("author", "UserFilter", false),
            f("and", "VideoFilter", true),
            f("or", "VideoFilter", true),
            f("not", "VideoFilter", false),
        ]
    );
    assert_eq!(shape.sort, vec!["status".to_string(), "tags".to_string()]);
}

#[test]
fn object_types_get_query_get_create_update_and_delete_fields() {
    let arg = |n: &str, t: &str, list: bool, required: bool| Argument {
        name: n.to_string(),
        type_label: t.to_string(),
        list,
        required,
    };
    let fields = root_fields_of("User", &vec!["email".to_string()], true);
    let names: Vec<&str> = fields.iter().map(|f| f.name.as_str()).collect();
    assert_eq!(names, vec!["queryUser", "getUser", "createUser", "updateUser", "deleteUser"]);
    assert!(fields[0].returns_list);
    assert_eq!(
        fields[0].args,
        vec![
            arg("filter", "UserFilter", false, false),
            arg("sort", "UserSort", false, false),
            arg("first", "Int", false, false),
            arg("offset", "Int", false, false),
            arg("after", "String", false, false),
            arg("nearVector", "Float", true, false),
        ]
    );
    assert_eq!(
        fields[1].args,
        vec![arg("uid", "ID", false, false), arg("id", "ID", false, false), arg("email", "String", false, false)]
    );
    assert_eq!(fields[2].args, vec![arg("input", "UserInput", false, true)]);
    assert_eq!(fields[3].returns, "Boolean");
    assert_eq!(fields[3].args, vec![arg("uid", "ID", false, true), arg("input", "UserInput", false, true)]);
    assert_eq!(fields[4].args, vec![arg("uid", "ID", false, true)]);
    let plain = root_fields_of("Tag", &vec![], false);
    assert_eq!(plain[0].args.len(), 5);
    assert_eq!(plain[1].args.len(), 2);
}

#[test]
fn exposed_field_types_of_objects_and_interfaces() {
    assert_eq!(object_field_type("ID", false), ("ID".to_string(), false, true));
    assert_eq!(object_field_type("Float", true), ("Float".to_string(), false, false));
    assert_eq!(object_field_type("Post", true), ("Post".to_string(), true, false));
    assert_eq!(interface_field_type("Float", true), ("Float".to_string(), true, false));
    assert_eq!(interface_field_type("String", true), ("String".to_string(), false, false));
}

#[test]
fn declared_input_fields_keep_their_required_marks() {
    let fields = vec![
        SdlField { name: "at".to_string(), ty: named("GeoPoint"), required: true, directives: vec![] },
        SdlField { name: "tags".to_string(), ty: SdlType::List(Box::new(named("String"))), required: false, directives: vec![] },
    ];
    let args = declared_input_fields_of(&fields);
    assert_eq!(
        args,
        vec![
            Argument { name: "at".to_string(), type_label: "GeoPointInput".to_string(), list: false, required: true },
            Argument { name: "tags".to_string(), type_label: "String".to_string(), list: true, required: false },
        ]
    );
}
