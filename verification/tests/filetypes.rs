use sims3_rs::dbpf::filetypes::{resource_is_png, type_code_for_name, ResourceType, PNG_RESOURCES};

#[test]
fn png_resources_are_exactly_the_listed_ones() {
    assert_eq!(PNG_RESOURCES.len(), 41);
    for code in PNG_RESOURCES {
        assert!(resource_is_png(code));
    }
    let mut sorted = PNG_RESOURCES.to_vec();
    sorted.sort();
    sorted.dedup();
    assert_eq!(sorted.len(), 41);
    // Neighbours of listed codes, and codes of other families.
    for code in [0u32, 0x0580_A2B3, 0x0580_A2B7, 0x2F7D_0002, 0x2F7D_0003, 0x015A_1849, u32::MAX] {
        assert!(!resource_is_png(code));
    }
    assert!(resource_is_png(ResourceType::UIImagePNG.code()));
    assert!(!resource_is_png(ResourceType::UIImageTGA.code()));
    assert!(resource_is_png(ResourceType::ColorThumb.code()));
    assert!(resource_is_png(0x626F_60CE));
}

#[test]
fn type_codes() {
    assert_eq!(ResourceType::Unknown.code(), 0);
    assert_eq!(ResourceType::GEOM.code(), 0x015A_1849);
    assert_eq!(ResourceType::NMAP.code(), 0x0166_038C);
    assert_eq!(ResourceType::CASP.code(), 0x034A_EECB);
    assert_eq!(ResourceType::OBJD.code(), 0x319E_4F1D);
    assert_eq!(ResourceType::XMLResource.code(), 0x0333_406C);
    assert_eq!(ResourceType::ColorThumb.code(), 0xFCEA_B65B);
    assert_eq!(ResourceType::default(), ResourceType::Unknown);
}

#[test]
fn type_of_a_code() {
    assert_eq!(ResourceType::from_code(0x015A_1849), Some(ResourceType::GEOM));
    assert_eq!(ResourceType::from_code(0), Some(ResourceType::Unknown));
    assert_eq!(ResourceType::from_code(0xD4D9_FBE5), Some(ResourceType::PTRN));
    assert_eq!(ResourceType::from_code(1), None);
    assert_eq!(ResourceType::from_code(0x0580_A2B4), None);
}

#[test]
fn code_of_a_name() {
    assert_eq!(type_code_for_name("GEOM"), Some(0x015A_1849));
    assert_eq!(type_code_for_name("SkinTone"), Some(0x0354_796A));
    assert_eq!(type_code_for_name("Unknown"), Some(0));
    assert_eq!(type_code_for_name("geom"), None);
    assert_eq!(type_code_for_name(""), None);
    assert_eq!(type_code_for_name("GEOM "), None);
    assert_eq!(ResourceType::LotIconLarge.name(), "LotIconLarge");
    assert_eq!(type_code_for_name(ResourceType::LotIconLarge.name()), Some(0xD84E_7FC7));
}
