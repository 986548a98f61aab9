use bad_north_save::model::{
    CampaignPrefs, CampaignStats, HeroStats, SerializableHeroUpgrade, SerializeFriendlyEnum,
    SerializeFriendlyIntEnum, UnityInfo, BOMB_UPGRADE_CODE, CORNUCOPIA_UPGRADE_CODE,
    GRAIL_UPGRADE_CODE, MINE_UPGRADE_CODE, PHILOSOPHERS_STONE_UPGRADE_CODE, SIZE_UPGRADE_CODE,
    TRAIT_AXE_THROWER_CODE, TRAIT_CHEAPER_CLASS_CODE, TRAIT_REGENERATIVE_CODE, TRAIT_THORN_CODE,
    WARHAMMER_UPGRADE_CODE, WAR_HORN_UPGRADE_CODE,
};

#[test]
fn upgrade_code_constants_match_game_data() {
    assert_eq!(WAR_HORN_UPGRADE_CODE, "Hero_Upgrade_Horn");
    assert_eq!(GRAIL_UPGRADE_CODE, "Hero_Upgrade_Grail");
    assert_eq!(BOMB_UPGRADE_CODE, "Hero_Upgrade_Bomb");
    assert_eq!(MINE_UPGRADE_CODE, "Hero_Upgrade_Mine");
    assert_eq!(PHILOSOPHERS_STONE_UPGRADE_CODE, "Hero_Upgrade_PhilosophersStone");
    assert_eq!(SIZE_UPGRADE_CODE, "Hero_Upgrade_Size");
    assert_eq!(WARHAMMER_UPGRADE_CODE, "Hero_Upgrade_Warhammer");
    assert_eq!(CORNUCOPIA_UPGRADE_CODE, "Hero_Upgrade_Cornucopia");
}

#[test]
fn trait_code_constants_match_modifier_definitions() {
    assert_eq!(TRAIT_AXE_THROWER_CODE, "Hero_Trait_AxeThrower");
    assert_eq!(TRAIT_CHEAPER_CLASS_CODE, "Hero_Trait_CheaperClass");
    assert_eq!(TRAIT_REGENERATIVE_CODE, "Hero_Trait_Regenerative");
    assert_eq!(TRAIT_THORN_CODE, "Hero_Trait_Thorn");
}

#[test]
fn model_defaults_are_zero_and_empty() {
    let u = UnityInfo::default();
    assert_eq!((u.metadataSize, u.fileSize, u.version, u.dataOffset), (0, 0, 0, 0));
    let h = HeroStats::default();
    assert_eq!(h.soldiersLost, 0);
    assert_eq!(h.recruitedTurn, 0);
    let up = SerializableHeroUpgrade::default();
    assert_eq!(up.name, "");
    assert_eq!(up.level, 0);
    let s = CampaignStats::default();
    assert!(s.vikingTypesKilled.is_empty());
    assert_eq!(s.levelRestarts, 0);
    let p = CampaignPrefs::default();
    assert!(!p.skipTutorial && !p.allowReplays && p.difficulty == 0);
    match SerializeFriendlyIntEnum::default() {
        SerializeFriendlyIntEnum::Value(v) => assert_eq!(v, 0),
        _ => panic!("default should be a bare value"),
    }
    let e: SerializeFriendlyEnum<i32> = SerializeFriendlyEnum::default();
    assert_eq!(e.value, 0);
    assert!(e.valueString.is_none());
}
