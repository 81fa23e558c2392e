use ccsds_tmtc::handler::{HandleError, Hook};
use ccsds_tmtc::telemetry::SanitizeHook;
use ccsds_tmtc::tco::{self, SchemaSet as TcoSchemaSet, Tco, TcoParam, TcoValue};
use ccsds_tmtc::tmiv::{self, SchemaSet as TmivSchemaSet, Tmiv, TmivField, TmivValue, Variant};

fn tco_schemas() -> TcoSchemaSet {
    TcoSchemaSet::new(vec![
        tco::Schema {
            name: "RT.OBC.NOP".to_string(),
            params: vec![],
        },
        tco::Schema {
            name: "RT.OBC.SET".to_string(),
            params: vec![
                tco::ParamSchema { name: "param2".to_string(), data_type: tco::DataType::DOUBLE },
                tco::ParamSchema { name: "param1".to_string(), data_type: tco::DataType::INTEGER },
            ],
        },
    ])
}

fn param(name: &str, value: TcoValue) -> TcoParam {
    TcoParam { name: name.to_string(), value: Some(value) }
}

#[test]
fn tco_sanitize_sorts_and_validates() {
    let set = tco_schemas();
    let tco = Tco {
        name: "RT.OBC.SET".to_string(),
        params: vec![param("param2", TcoValue::Double(2.5f64.to_bits())), param("param1", TcoValue::Integer(7))],
    };
    let out = set.sanitize(tco).unwrap();
    let names: Vec<&str> = out.params.iter().map(|p| p.name.as_str()).collect();
    assert_eq!(names, vec!["param1", "param2"]);
    let again = set.sanitize(out.clone()).unwrap();
    let names2: Vec<&str> = again.params.iter().map(|p| p.name.as_str()).collect();
    assert_eq!(names, names2);
    assert_eq!(again.name, "RT.OBC.SET");
}

#[test]
fn tco_sanitize_errors() {
    let set = tco_schemas();
    let unknown = Tco { name: "RT.OBC.XYZ".to_string(), params: vec![] };
    assert_eq!(set.sanitize(unknown).err(), Some(tco::SanitizeError::NoMatchedSchema));
    let count = Tco { name: "RT.OBC.NOP".to_string(), params: vec![param("param1", TcoValue::Integer(1))] };
    assert_eq!(set.sanitize(count).err(), Some(tco::SanitizeError::ParamCountMismatch));
    let wrong_type = Tco {
        name: "RT.OBC.SET".to_string(),
        params: vec![param("param1", TcoValue::Integer(1)), param("param2", TcoValue::Integer(2))],
    };
    assert_eq!(set.sanitize(wrong_type).err(), Some(tco::SanitizeError::TypeMismatch { index: 1 }));
    let wrong_name = Tco {
        name: "RT.OBC.SET".to_string(),
        params: vec![param("param1", TcoValue::Integer(1)), param("param9", TcoValue::Integer(2))],
    };
    assert_eq!(set.sanitize(wrong_name).err(), Some(tco::SanitizeError::NameMismatch { index: 1 }));
    let no_value = Tco {
        name: "RT.OBC.SET".to_string(),
        params: vec![TcoParam { name: "param1".to_string(), value: None }, param("param2", TcoValue::Double(0))],
    };
    assert_eq!(set.sanitize(no_value).err(), Some(tco::SanitizeError::NoValue { index: 0 }));
}

fn tmiv_schemas() -> TmivSchemaSet {
    TmivSchemaSet::new(vec![tmiv::Schema {
        name: "RT.OBC.HK".to_string(),
        fields: vec![
            tmiv::FieldSchema {
                name: "MODE".to_string(),
                data_type: tmiv::DataType::ENUM,
                variants: vec![Variant { name: "SAFE".to_string() }, Variant { name: "NOMINAL".to_string() }],
            },
            tmiv::FieldSchema { name: "COUNT".to_string(), data_type: tmiv::DataType::INTEGER, variants: vec![] },
        ],
    }])
}

fn field(name: &str, value: TmivValue) -> TmivField {
    TmivField { name: name.to_string(), value: Some(value) }
}

#[test]
fn tmiv_sanitize() {
    let set = tmiv_schemas();
    let tmiv = Tmiv {
        name: "RT.OBC.HK".to_string(),
        plugin_received_time: 3,
        timestamp: None,
        fields: vec![field("MODE", TmivValue::Enum("SAFE".to_string())), field("COUNT", TmivValue::Integer(4))],
    };
    let out = set.sanitize(tmiv).unwrap();
    assert_eq!(out.fields[0].name, "COUNT");
    assert_eq!(out.fields[1].name, "MODE");
    assert_eq!(out.plugin_received_time, 3);
    assert!(set.find_schema_by_name("RT.OBC.HK").is_some());
    assert!(set.find_schema_by_name("RT.OBC.X").is_none());

    let bad = Tmiv {
        name: "RT.OBC.HK".to_string(),
        plugin_received_time: 3,
        timestamp: None,
        fields: vec![field("MODE", TmivValue::Enum("BROKEN".to_string())), field("COUNT", TmivValue::Integer(4))],
    };
    assert_eq!(set.sanitize(bad).err(), Some(tmiv::SanitizeError::InvalidVariant { index: 1 }));
}

#[test]
fn tmiv_sanitize_errors() {
    let set = tmiv_schemas();
    let make = |name: &str, fields: Vec<TmivField>| Tmiv {
        name: name.to_string(),
        plugin_received_time: 0,
        timestamp: None,
        fields,
    };
    assert_eq!(set.sanitize(make("RT.X", vec![])).err(), Some(tmiv::SanitizeError::NoMatchedSchema));
    assert_eq!(set.sanitize(make("RT.OBC.HK", vec![])).err(), Some(tmiv::SanitizeError::FieldCountMismatch));
    let wrong_name = vec![field("MODE", TmivValue::Enum("SAFE".to_string())), field("AAA", TmivValue::Integer(4))];
    assert_eq!(set.sanitize(make("RT.OBC.HK", wrong_name)).err(), Some(tmiv::SanitizeError::NameMismatch { index: 0 }));
    let no_value = vec![field("MODE", TmivValue::Enum("SAFE".to_string())), TmivField { name: "COUNT".to_string(), value: None }];
    assert_eq!(set.sanitize(make("RT.OBC.HK", no_value)).err(), Some(tmiv::SanitizeError::NoValue { index: 0 }));
    let wrong_type = vec![field("MODE", TmivValue::String("SAFE".to_string())), field("COUNT", TmivValue::Integer(4))];
    assert_eq!(set.sanitize(make("RT.OBC.HK", wrong_type)).err(), Some(tmiv::SanitizeError::TypeMismatch { index: 1 }));
    let mut hook = SanitizeHook::new(tmiv_schemas());
    assert_eq!(
        hook.hook(make("RT.X", vec![])).err(),
        Some(HandleError::InvalidTelemetry(tmiv::SanitizeError::NoMatchedSchema))
    );
}
