use generator2::kind::{EnumExt, EnumKind};
use generator2::model::EnumGroup;
use generator2::names::{derive_flag_set_type_name, derive_type_name, derive_variant_name, derive_variant_name_with_prefix};
use generator2::tags::TagSet;

fn tag_set(tags: &[&str]) -> TagSet {
    let mut s = TagSet::new();
    for t in tags {
        s.insert((*t).to_string());
    }
    s
}

#[test]
fn classify_bitmask_marker() {
    assert!(matches!(EnumKind::from_str("bitmask"), Ok(EnumKind::Bitflag)));
}

#[test]
fn classify_enum_marker() {
    assert!(matches!(EnumKind::from_str("enum"), Ok(EnumKind::Enum)));
}

#[test]
fn classify_unknown_marker_is_error() {
    let e = match EnumKind::from_str("constants") {
        Err(e) => e,
        Ok(_) => panic!("an unknown marker must not classify"),
    };
    assert_eq!(e.marker, "constants");
    assert_eq!(e.message(), "unknown enum group kind marker: constants");
}

#[test]
fn classify_absent_marker_defaults_to_constant() {
    let g = EnumGroup { name: Some("VkApiConstants".to_string()), kind: None, enumerants: vec![] };
    assert!(matches!(g.enum_kind(), Ok(EnumKind::Constant)));
}

#[test]
fn classify_group_with_markers() {
    let g = EnumGroup {
        name: Some("VkResult".to_string()),
        kind: Some("enum".to_string()),
        enumerants: vec![],
    };
    assert!(matches!(g.enum_kind(), Ok(EnumKind::Enum)));
    let b = EnumGroup {
        name: Some("VkAccessFlagBits".to_string()),
        kind: Some("bitmask".to_string()),
        enumerants: vec![],
    };
    assert!(matches!(b.enum_kind(), Ok(EnumKind::Bitflag)));
    let u = EnumGroup {
        name: Some("VkOdd".to_string()),
        kind: Some("ternary".to_string()),
        enumerants: vec![],
    };
    assert!(u.enum_kind().is_err());
}

#[test]
fn type_name_strips_prefix() {
    assert_eq!(derive_type_name("VkResult"), "Result");
    assert_eq!(derive_type_name("Result"), "Result");
    assert_eq!(derive_type_name("Vk"), "");
}

#[test]
fn type_name_is_idempotent() {
    for raw in ["VkResult", "VkVkBool32", "Plain", "Vk", ""] {
        let once = derive_type_name(raw);
        assert_eq!(derive_type_name(once), once);
    }
}

#[test]
fn flag_set_type_name() {
    assert_eq!(
        derive_flag_set_type_name("VkSurfaceCounterFlagBitsKHR"),
        "SurfaceCounterFlagsKHR"
    );
    assert_eq!(derive_flag_set_type_name("VkAccessFlagBits"), "AccessFlags");
    assert_eq!(derive_flag_set_type_name("VkNoSuchConvention"), "NoSuchConvention");
}

#[test]
fn variant_name_keeps_unmatched_tokens() {
    let tags = tag_set(&[]);
    assert_eq!(
        derive_variant_name(&tags, "VkResult", "VK_ERROR_OUT_OF_HOST_MEMORY"),
        "ERROR_OUT_OF_HOST_MEMORY"
    );
}

#[test]
fn variant_name_drops_shared_tokens() {
    let tags = tag_set(&[]);
    assert_eq!(derive_variant_name(&tags, "VkImageType", "VK_IMAGE_TYPE_2D"), "2D");
}

#[test]
fn variant_name_empty_when_all_tokens_match() {
    let tags = tag_set(&[]);
    assert_eq!(derive_variant_name(&tags, "VkImageType", "VK_IMAGE_TYPE"), "");
}

#[test]
fn variant_name_strips_trailing_tag() {
    let tags = tag_set(&["NV", "KHR"]);
    assert_eq!(derive_variant_name(&tags, "VkFoo", "VK_FOO_BAR_NV"), "BAR");
}

#[test]
fn variant_name_keeps_single_tag_token() {
    let tags = tag_set(&["NV"]);
    assert_eq!(derive_variant_name(&tags, "VkFoo", "VK_FOO_NV"), "NV");
}

#[test]
fn variant_name_strips_trailing_bit() {
    let tags = tag_set(&[]);
    assert_eq!(derive_variant_name(&tags, "VkFoo", "VK_FOO_BAR_BIT"), "BAR");
}

#[test]
fn variant_name_strips_bit_at_most_once() {
    let tags = tag_set(&[]);
    assert_eq!(derive_variant_name(&tags, "VkFoo", "VK_FOO_BAR_BIT_BIT"), "BAR_BIT");
}

#[test]
fn variant_name_strips_tag_then_bit() {
    let tags = tag_set(&["NV"]);
    assert_eq!(derive_variant_name(&tags, "VkFoo", "VK_FOO_BAR_BIT_NV"), "BAR");
}

#[test]
fn tag_set_iterates_sorted() {
    let tags = tag_set(&["NV", "AMD", "KHR", "EXT", "AMD"]);
    let mut seen: Vec<String> = Vec::new();
    for i in 0..tags.len() {
        seen.push(tags.tag_at(i).clone());
    }
    assert_eq!(seen, vec!["AMD", "EXT", "KHR", "NV"]);
    assert!(tags.contains("KHR"));
    assert!(!tags.contains("ARM"));
}

#[test]
fn variant_name_with_explicit_prefix() {
    let tags = tag_set(&["EXT"]);
    assert_eq!(
        derive_variant_name_with_prefix(&tags, "VK_IMAGE_TYPE", "VK_IMAGE_TYPE_2D"),
        "2D"
    );
    assert_eq!(
        derive_variant_name_with_prefix(
            &tags,
            "VK_SURFACE_COUNTER_FLAG_BITS_EXT",
            "VK_SURFACE_COUNTER_VBLANK_BIT_EXT"
        ),
        "VBLANK"
    );
    assert_eq!(derive_variant_name_with_prefix(&tags, "VK_RESULT", "VK_SUCCESS"), "SUCCESS");
}
