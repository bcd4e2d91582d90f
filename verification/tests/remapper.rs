use wadtools::remapper::{remap_path, Remapper, SwapEngine};

#[test]
fn test_remap_skin05_to_base() {
    let remapper = Remapper::new();
    let champion = "Ahri";
    let src = "ASSETS/Characters/Ahri/Skins/Skin05/Ahri_Skin05.skn";

    let result = remapper.remap(champion, 5, 0, src);

    assert_eq!(
        result,
        Some("ASSETS/Characters/Ahri/Skins/Skin00/Ahri_Base.skn".to_string())
    );
}

#[test]
fn test_remap_texture() {
    let remapper = Remapper::new();
    let champion = "Ahri";
    let src = "ASSETS/Characters/Ahri/Skins/Skin05/Ahri_Skin05_TX_CM.dds";

    let result = remapper.remap(champion, 5, 0, src);

    assert_eq!(
        result,
        Some("ASSETS/Characters/Ahri/Skins/Skin00/Ahri_Base_TX_CM.dds".to_string())
    );
}

#[test]
fn test_remap_particles() {
    let remapper = Remapper::new();
    let champion = "Ahri";
    let src = "ASSETS/Characters/Ahri/Skins/Skin05/Particles/Ahri_Skin05_Q_Orb.troy";

    let result = remapper.remap(champion, 5, 0, src);

    assert_eq!(
        result,
        Some("ASSETS/Characters/Ahri/Skins/Skin00/Particles/Ahri_Base_Q_Orb.troy".to_string())
    );
}

#[test]
fn test_remap_same_skin_is_noop() {
    let remapper = Remapper::new();
    assert_eq!(
        remapper.remap("Ahri", 5, 5, "ASSETS/Characters/Ahri/Skins/Skin05/Ahri_Skin05.skn"),
        None
    );
}

#[test]
fn test_remap_unrelated_path_is_noop() {
    let remapper = Remapper::new();
    assert_eq!(
        remapper.remap("Ahri", 5, 0, "ASSETS/Shared/Common/Materials.bin"),
        None
    );
}

#[test]
fn test_remap_to_nonzero_skin() {
    let remapper = Remapper::new();
    let result = remapper.remap("Ahri", 5, 7, "ASSETS/Characters/Ahri/Skins/Skin05/Ahri_Skin05.skn");
    assert_eq!(
        result,
        Some("ASSETS/Characters/Ahri/Skins/Skin07/Ahri_Skin07.skn".to_string())
    );
}

#[test]
fn test_remap_backslash_separators() {
    let remapper = Remapper::new();
    let result = remapper.remap(
        "Ahri",
        5,
        0,
        "ASSETS\\Characters\\Ahri\\Skins\\Skin05\\Ahri_Skin05.skn",
    );
    assert_eq!(
        result,
        Some("ASSETS/Characters/Ahri/Skins/Skin00/Ahri_Base.skn".to_string())
    );
}

#[test]
fn test_swap_engine_and_free_function_agree() {
    let engine = SwapEngine::new();
    let src = "ASSETS/Characters/Ahri/Skins/Skin05/Ahri_Skin05.skn";
    assert_eq!(
        engine.remap_path("Ahri", 5, 0, src),
        remap_path("Ahri", 5, 0, src)
    );
}
