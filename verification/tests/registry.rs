use generator2::context::Context;
use generator2::model::{
    EnumGroup, EnumPayload, Enumerant, Extension, ExtensionChild, InterfaceItem, Registry,
    RegistryChild, TypeNode,
};

fn offset_enumerant(name: &str, extends: &str) -> Enumerant {
    Enumerant {
        name: name.to_string(),
        payload: EnumPayload::Offset { extends: extends.to_string() },
    }
}

fn extension(name: &str, items: Vec<InterfaceItem>) -> Extension {
    Extension {
        name: name.to_string(),
        children: vec![ExtensionChild::Require { items }, ExtensionChild::Other],
    }
}

fn group(name: &str, kind: Option<&str>) -> EnumGroup {
    EnumGroup {
        name: Some(name.to_string()),
        kind: kind.map(|k| k.to_string()),
        enumerants: vec![],
    }
}

fn build(registry: &Registry) -> Context {
    match Context::from_registry(registry) {
        Ok(ctx) => ctx,
        Err(e) => panic!("{}", e.message()),
    }
}

#[test]
fn indices_are_collected() {
    let registry = Registry {
        children: vec![
            RegistryChild::Tags(vec!["KHR".to_string(), "NV".to_string()]),
            RegistryChild::Types(vec![
                TypeNode { name: Some("VkBool32".to_string()) },
                TypeNode { name: None },
            ]),
            RegistryChild::Enums(group("VkResult", Some("enum"))),
            RegistryChild::Other,
            RegistryChild::Enums(group("VkAccessFlagBits", Some("bitmask"))),
            RegistryChild::Extensions(vec![extension("VK_KHR_surface", vec![])]),
        ],
    };
    let ctx = build(&registry);
    assert!(ctx.tags.contains("KHR"));
    assert!(ctx.tags.contains("NV"));
    assert!(!ctx.tags.contains("VkBool32"));
    assert!(ctx.type_by_name.get("VkBool32").is_some());
    assert!(ctx.enums_by_name.get("VkResult").is_some());
    assert!(ctx.enums_by_name.get("VkAccessFlagBits").is_some());
    assert!(ctx.extension_by_name.get("VK_KHR_surface").is_some());
    assert!(ctx.extension_enums.len() == 0);
}

#[test]
fn missing_group_name_is_fatal() {
    let registry = Registry {
        children: vec![RegistryChild::Enums(EnumGroup {
            name: None,
            kind: Some("enum".to_string()),
            enumerants: vec![],
        })],
    };
    let e = match Context::from_registry(&registry) {
        Err(e) => e,
        Ok(_) => panic!("an unnamed enum group must abort the build"),
    };
    assert_eq!(e.message(), "enum group without a name in the registry");
}

#[test]
fn duplicate_keys_last_wins() {
    let registry = Registry {
        children: vec![
            RegistryChild::Enums(group("VkResult", None)),
            RegistryChild::Enums(group("VkResult", Some("enum"))),
        ],
    };
    let ctx = build(&registry);
    assert_eq!(ctx.enums_by_name.len(), 1);
    let g = ctx.enums_by_name.get("VkResult").unwrap();
    assert_eq!(g.kind.as_deref(), Some("enum"));
}

#[test]
fn aggregates_follow_sorted_extension_order() {
    // Declared out of name order on purpose: the aggregate must follow the
    // sorted extension index, and the representative is the first
    // contributor in that order.
    let registry = Registry {
        children: vec![
            RegistryChild::Enums(group("VkFormat", Some("enum"))),
            RegistryChild::Extensions(vec![
                extension(
                    "VK_ZZ_formats",
                    vec![
                        InterfaceItem::Enum(offset_enumerant("VK_FORMAT_FROM_ZZ", "VkFormat")),
                        InterfaceItem::Other,
                    ],
                ),
                extension(
                    "VK_AA_formats",
                    vec![InterfaceItem::Enum(offset_enumerant("VK_FORMAT_FROM_AA", "VkFormat"))],
                ),
            ]),
        ],
    };
    let ctx = build(&registry);
    assert_eq!(ctx.extension_enums.len(), 1);
    let agg = ctx.extension_enums.get("VkFormat").unwrap();
    assert_eq!(agg.extension, "VK_AA_formats");
    let names: Vec<&str> = agg.enums.iter().map(|e| e.name.as_str()).collect();
    assert_eq!(names, vec!["VK_FORMAT_FROM_AA", "VK_FORMAT_FROM_ZZ"]);
}

#[test]
fn enumerant_without_extends_is_not_aggregated() {
    let registry = Registry {
        children: vec![RegistryChild::Extensions(vec![extension(
            "VK_KHR_misc",
            vec![
                InterfaceItem::Enum(Enumerant {
                    name: "VK_KHR_MISC_SPEC_VERSION".to_string(),
                    payload: EnumPayload::Value { extends: None },
                }),
                InterfaceItem::Enum(Enumerant {
                    name: "VK_STRUCTURE_TYPE_FROM_MISC".to_string(),
                    payload: EnumPayload::Value { extends: Some("VkStructureType".to_string()) },
                }),
                InterfaceItem::Enum(Enumerant {
                    name: "VK_NO_TARGET".to_string(),
                    payload: EnumPayload::Unspecified,
                }),
            ],
        )])],
    };
    let ctx = build(&registry);
    assert_eq!(ctx.extension_enums.len(), 1);
    let agg = ctx.extension_enums.get("VkStructureType").unwrap();
    assert_eq!(agg.enums.len(), 1);
    assert_eq!(agg.enums[0].name, "VK_STRUCTURE_TYPE_FROM_MISC");
}

#[test]
fn iteration_order_ignores_physical_node_order() {
    let tags_node = || RegistryChild::Tags(vec!["NV".to_string(), "KHR".to_string()]);
    let tags_node_swapped = || RegistryChild::Tags(vec!["KHR".to_string(), "NV".to_string()]);
    let exts = |flip: bool| {
        let a = extension(
            "VK_AA_one",
            vec![InterfaceItem::Enum(offset_enumerant("VK_FORMAT_A", "VkFormat"))],
        );
        let b = extension(
            "VK_BB_two",
            vec![InterfaceItem::Enum(offset_enumerant("VK_RESULT_B", "VkResult"))],
        );
        if flip {
            RegistryChild::Extensions(vec![b, a])
        } else {
            RegistryChild::Extensions(vec![a, b])
        }
    };
    let one = Registry {
        children: vec![
            tags_node(),
            RegistryChild::Enums(group("VkFormat", Some("enum"))),
            RegistryChild::Enums(group("VkResult", Some("enum"))),
            exts(false),
        ],
    };
    let two = Registry {
        children: vec![
            exts(true),
            RegistryChild::Enums(group("VkResult", Some("enum"))),
            tags_node_swapped(),
            RegistryChild::Enums(group("VkFormat", Some("enum"))),
        ],
    };
    let c1 = build(&one);
    let c2 = build(&two);
    let keys = |m: &generator2::ordmap::StrMap<EnumGroup>| -> Vec<String> {
        (0..m.len()).map(|i| m.key_at(i).clone()).collect()
    };
    assert_eq!(keys(&c1.enums_by_name), keys(&c2.enums_by_name));
    assert_eq!(keys(&c1.enums_by_name), vec!["VkFormat", "VkResult"]);
    let ext_keys = |c: &Context| -> Vec<String> {
        (0..c.extension_by_name.len()).map(|i| c.extension_by_name.key_at(i).clone()).collect()
    };
    assert_eq!(ext_keys(&c1), ext_keys(&c2));
    let tag_list = |c: &Context| -> Vec<String> {
        (0..c.tags.len()).map(|i| c.tags.tag_at(i).clone()).collect()
    };
    assert_eq!(tag_list(&c1), tag_list(&c2));
    assert_eq!(tag_list(&c1), vec!["KHR", "NV"]);
    let agg_keys = |c: &Context| -> Vec<String> {
        (0..c.extension_enums.len()).map(|i| c.extension_enums.key_at(i).clone()).collect()
    };
    assert_eq!(agg_keys(&c1), agg_keys(&c2));
    assert_eq!(agg_keys(&c1), vec!["VkFormat", "VkResult"]);
}

#[test]
fn context_answers_naming_queries() {
    let registry = Registry {
        children: vec![RegistryChild::Tags(vec!["KHR".to_string(), "EXT".to_string()])],
    };
    let ctx = build(&registry);
    assert_eq!(ctx.rust_type_name("VkSurfaceKHR"), "SurfaceKHR");
    assert_eq!(ctx.rust_bitflag_type_name("VkSurfaceCounterFlagBitsKHR"), "SurfaceCounterFlagsKHR");
    assert_eq!(
        ctx.rust_enum_variant_name("VkSurfaceCounterFlagBitsEXT", "VK_SURFACE_COUNTER_VBLANK_BIT_EXT"),
        "VBLANK"
    );
    assert_eq!(
        ctx.rust_enum_variant_name("VkResult", "VK_ERROR_SURFACE_LOST_KHR"),
        "ERROR_SURFACE_LOST"
    );
}
