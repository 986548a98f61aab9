//! The save data as the game models it: the parts made of integers, strings
//! and flags, and the codes of its upgrades and traits.
#![allow(non_snake_case)]
use vstd::prelude::*;

verus! {

/// Where the serialized data sits in a Unity save file.
#[derive(Debug, Clone)]
pub struct UnityInfo {
    pub metadataSize: u32,
    pub fileSize: u32,
    pub version: u32,
    pub dataOffset: u32,
}

impl Default for UnityInfo {
    fn default() -> (r: Self)
        ensures
            r.metadataSize == 0 && r.fileSize == 0 && r.version == 0 && r.dataOffset == 0,
    {
        UnityInfo { metadataSize: 0, fileSize: 0, version: 0, dataOffset: 0 }
    }
}

/// A reference from a level to one of its objects.
#[derive(Debug, Clone)]
pub struct LevelObjectReference {
    pub name: Option<String>,
    pub key: Option<LevelObjectReferenceKey>,
    pub id: Option<i32>,
    pub pathId: Option<i32>,
    pub typeId: Option<i32>,
}

impl Default for LevelObjectReference {
    fn default() -> (r: Self)
        ensures
            r.name is None && r.key is None && r.id is None && r.pathId is None && r.typeId is None,
    {
        LevelObjectReference { name: None, key: None, id: None, pathId: None, typeId: None }
    }
}

/// The key of a level object reference.
#[derive(Debug, Clone)]
pub struct LevelObjectReferenceKey {
    pub value: Option<i32>,
    pub name: Option<String>,
}

impl Default for LevelObjectReferenceKey {
    fn default() -> (r: Self)
        ensures
            r.value is None && r.name is None,
    {
        LevelObjectReferenceKey { value: None, name: None }
    }
}

/// What a hero has done.
#[derive(Debug, Clone)]
pub struct HeroStats {
    pub recruitedTurn: i32,
    pub vikingsKilled: i32,
    pub islandsVisited: i32,
    pub islandsWon: i32,
    pub soldiersLost: i32,
}

impl Default for HeroStats {
    fn default() -> (r: Self)
        ensures
            r.recruitedTurn == 0 && r.vikingsKilled == 0 && r.islandsVisited == 0 && r.islandsWon == 0
                && r.soldiersLost == 0,
    {
        HeroStats { recruitedTurn: 0, vikingsKilled: 0, islandsVisited: 0, islandsWon: 0, soldiersLost: 0 }
    }
}

/// An upgrade, by its code, and its level.
#[derive(Debug, Clone)]
pub struct SerializableHeroUpgrade {
    pub name: String,
    pub level: i32,
}

impl Default for SerializableHeroUpgrade {
    fn default() -> (r: Self)
        ensures
            r.name@ == Seq::<char>::empty() && r.level == 0,
    {
        SerializableHeroUpgrade { name: String::new(), level: 0 }
    }
}

/// Totals kept over a campaign.
#[derive(Debug, Clone)]
pub struct CampaignStats {
    pub version: i32,
    pub vikingsKilled: i32,
    pub englishKilled: i32,
    pub heroesRecruited: i32,
    pub heroesDied: i32,
    pub islandsVisited: i32,
    pub islandsDefended: i32,
    pub islandsLost: i32,
    pub islandsFled: i32,
    pub uniqueIslandsVisited: i32,
    pub uniqueIslandsDefended: i32,
    pub uniqueIslandsLost: i32,
    pub coinsCollected: i32,
    pub checkpointsSaved: i32,
    pub checkpointsLost: i32,
    pub levelRestarts: i32,
    pub vikingTypesKilled: Vec<SerializeFriendlyIntEnum>,
}

impl Default for CampaignStats {
    fn default() -> (r: Self)
        ensures
            r.version == 0 && r.vikingsKilled == 0 && r.englishKilled == 0 && r.heroesRecruited == 0
                && r.heroesDied == 0 && r.islandsVisited == 0 && r.islandsDefended == 0 && r.islandsLost == 0
                && r.islandsFled == 0 && r.uniqueIslandsVisited == 0 && r.uniqueIslandsDefended == 0
                && r.uniqueIslandsLost == 0 && r.coinsCollected == 0 && r.checkpointsSaved == 0
                && r.checkpointsLost == 0 && r.levelRestarts == 0 && r.vikingTypesKilled@.len() == 0,
    {
        CampaignStats {
            version: 0,
            vikingsKilled: 0,
            englishKilled: 0,
            heroesRecruited: 0,
            heroesDied: 0,
            islandsVisited: 0,
            islandsDefended: 0,
            islandsLost: 0,
            islandsFled: 0,
            uniqueIslandsVisited: 0,
            uniqueIslandsDefended: 0,
            uniqueIslandsLost: 0,
            coinsCollected: 0,
            checkpointsSaved: 0,
            checkpointsLost: 0,
            levelRestarts: 0,
            vikingTypesKilled: Vec::new(),
        }
    }
}

/// The player's choices for a campaign.
#[derive(Debug, Clone)]
pub struct CampaignPrefs {
    pub difficulty: i32,
    pub skipTutorial: bool,
    pub allowReplays: bool,
}

impl Default for CampaignPrefs {
    fn default() -> (r: Self)
        ensures
            r.difficulty == 0 && !r.skipTutorial && !r.allowReplays,
    {
        CampaignPrefs { difficulty: 0, skipTutorial: false, allowReplays: false }
    }
}

/// An enum value as the game stores it: bare, or wrapped with its name.
#[derive(Debug, Clone)]
pub enum SerializeFriendlyIntEnum {
    Wrapped(SerializeFriendlyEnum<i32>),
    Value(i32),
}

impl Default for SerializeFriendlyIntEnum {
    /// The bare value 0.
    fn default() -> (r: Self)
        ensures
            r matches SerializeFriendlyIntEnum::Value(v) && v == 0,
    {
        SerializeFriendlyIntEnum::Value(0)
    }
}

/// An enum value with, where known, its name.
#[derive(Debug, Clone)]
pub struct SerializeFriendlyEnum<T> {
    pub value: T,
    pub valueString: Option<String>,
}

impl<T: Default> Default for SerializeFriendlyEnum<T> {
    fn default() -> (r: Self)
        ensures
            r.valueString is None,
    {
        SerializeFriendlyEnum { value: T::default(), valueString: None }
    }
}

/// Upgrade codes as the game data names them.
pub const WAR_HORN_UPGRADE_CODE: &'static str = "Hero_Upgrade_Horn";
pub const GRAIL_UPGRADE_CODE: &'static str = "Hero_Upgrade_Grail";
pub const BOMB_UPGRADE_CODE: &'static str = "Hero_Upgrade_Bomb";
pub const MINE_UPGRADE_CODE: &'static str = "Hero_Upgrade_Mine";
pub const PHILOSOPHERS_STONE_UPGRADE_CODE: &'static str = "Hero_Upgrade_PhilosophersStone";
pub const SIZE_UPGRADE_CODE: &'static str = "Hero_Upgrade_Size";
pub const WARHAMMER_UPGRADE_CODE: &'static str = "Hero_Upgrade_Warhammer";
pub const CORNUCOPIA_UPGRADE_CODE: &'static str = "Hero_Upgrade_Cornucopia";

/// Trait codes as the game data names them.
pub const TRAIT_AXE_THROWER_CODE: &'static str = "Hero_Trait_AxeThrower";
pub const TRAIT_CHEAPER_CLASS_CODE: &'static str = "Hero_Trait_CheaperClass";
pub const TRAIT_REGENERATIVE_CODE: &'static str = "Hero_Trait_Regenerative";
pub const TRAIT_THORN_CODE: &'static str = "Hero_Trait_Thorn";

} // verus!
