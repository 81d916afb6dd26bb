//! The known resource types, and the family of resources that hold a PNG
//! image.

pub mod geom;
pub mod nmap;

use vstd::prelude::*;

verus! {

/// A resource type that has a name.
#[derive(Debug, Clone, Copy, PartialEq, Eq, Structural)]
pub enum ResourceType {
    /// `0`
    Unknown,
    /// `0x00AE_6C67`
    BONE,
    /// `0x00B2_D882`
    IMG,
    /// `0x00B5_52EA`
    SPT,
    /// `0x015A_1849`
    GEOM,
    /// `0x0166_038C`
    NMAP,
    /// `0x0166_1233`
    MODL,
    /// `0x01A5_27DB`
    AUDSNR,
    /// `0x01EE_F63A`
    AUDSNS,
    /// `0x01D0_E6FB`
    VBUF1,
    /// `0x01D0_E70F`
    IBUF1,
    /// `0x01D0_E723`
    VRTF,
    /// `0x01D0_E75D`
    MATD,
    /// `0x01D0_E76B`
    SKIN,
    /// `0x01D1_0F34`
    MLOD,
    /// `0x0201_9972`
    MTST,
    /// `0x021D_7E8C`
    SPT2,
    /// `0x0229_684B`
    VBUF2,
    /// `0x0229_684F`
    IBUF2,
    /// `0x025C_90A6`
    CSS,
    /// `0x025C_95B6`
    LAYO,
    /// `0x025E_D6F4`
    SIMO,
    /// `0x029E_333B`
    VOCE,
    /// `0x02C9_EFF2`
    MIXR,
    /// `0x02D5_DF13`
    JAZZ,
    /// `0x02DC_343F`
    OBJK,
    /// `0x0332_60E3`
    TKMK,
    /// `0x0333_406C`
    XMLResource,
    /// `0x033A_1435`
    TXTC,
    /// `0x0341_ACC9`
    TXTF,
    /// `0x034A_EECB`
    CASP,
    /// `0x0354_796A`
    SkinTone,
    /// `0x0355_5BA8`
    HairTone,
    /// `0x0355_E0A6`
    BoneDelta,
    /// `0x0358_B08A`
    FACE,
    /// `0x03B3_3DDF`
    ITUN,
    /// `0x03B4_C61D`
    LITE,
    /// `0x03D8_43C2`
    CCHE,
    /// `0x03D8_6EA4`
    DETL,
    /// `0x0418_FE2A`
    CFEN,
    /// `0x044A_E110`
    COMP,
    /// `0x046A_7235`
    LotLoc,
    /// `0x0498_DA7E`
    LotID,
    /// `0x049C_A4CD`
    CSTR,
    /// `0x04A0_9283`
    StairLocation,
    /// `0x04A4_D951`
    WorldDetail,
    /// `0x04AC_5D93`
    CPRX,
    /// `0x04B3_0669`
    CTTL,
    /// `0x04C5_8103`
    CRAL,
    /// `0x04D8_2D90`
    CMRU,
    /// `0x04ED_4BB2`
    CTPT,
    /// `0x04F3_CC01`
    CFIR,
    /// `0x04F5_1033`
    SBNO,
    /// `0x04F8_8964`
    SIME,
    /// `0x051D_F2DD`
    CBLN,
    /// `0x0580_A2CD`
    SimSNAPUnk,
    /// `0x0580_A2CE`
    SimSNAPSmall,
    /// `0x0580_A2CF`
    SimSNAPLarge,
    /// `0x0591_B1AF`
    UPST,
    /// `0x0668_F635`
    TWNI,
    /// `0x2E75_C764`
    OBJIconSmall,
    /// `0x2E75_C765`
    OBJIconMedium,
    /// `0x2E75_C766`
    OBJIconLarge,
    /// `0x2E75_C767`
    OBJIconXLarge,
    /// `0x2F7D_0002`
    UIImageTGA,
    /// `0x2F7D_0004`
    UIImagePNG,
    /// `0x319E_4F1D`
    OBJD,
    /// `0x5437_2472`
    TravelSNAP,
    /// `0x6B6D_837D`
    FamilySNAPSmall,
    /// `0x6B6D_837E`
    FamilySNAPMedium,
    /// `0x6B6D_837F`
    FamilySNAPLarge,
    /// `0x73E9_3EEB`
    XMLManifest,
    /// `0xD4D9_FBE5`
    PTRN,
    /// `0xD84E_7FC5`
    LotIconSmall,
    /// `0xD84E_7FC6`
    LotIconMedium,
    /// `0xD84E_7FC7`
    LotIconLarge,
    /// `0xFCEA_B65B`
    ColorThumb,
}

impl Default for ResourceType {
    fn default() -> (r: ResourceType)
        ensures
            r == ResourceType::Unknown,
    {
        ResourceType::Unknown
    }
}

impl ResourceType {
    /// The 32-bit code of the type, as entries of an archive carry it.
    pub open spec fn code_of(self) -> u32 {
        match self {
            ResourceType::Unknown => 0,
            ResourceType::BONE => 0x00AE_6C67,
            ResourceType::IMG => 0x00B2_D882,
            ResourceType::SPT => 0x00B5_52EA,
            ResourceType::GEOM => 0x015A_1849,
            ResourceType::NMAP => 0x0166_038C,
            ResourceType::MODL => 0x0166_1233,
            ResourceType::AUDSNR => 0x01A5_27DB,
            ResourceType::AUDSNS => 0x01EE_F63A,
            ResourceType::VBUF1 => 0x01D0_E6FB,
            ResourceType::IBUF1 => 0x01D0_E70F,
            ResourceType::VRTF => 0x01D0_E723,
            ResourceType::MATD => 0x01D0_E75D,
            ResourceType::SKIN => 0x01D0_E76B,
            ResourceType::MLOD => 0x01D1_0F34,
            ResourceType::MTST => 0x0201_9972,
            ResourceType::SPT2 => 0x021D_7E8C,
            ResourceType::VBUF2 => 0x0229_684B,
            ResourceType::IBUF2 => 0x0229_684F,
            ResourceType::CSS => 0x025C_90A6,
            ResourceType::LAYO => 0x025C_95B6,
            ResourceType::SIMO => 0x025E_D6F4,
            ResourceType::VOCE => 0x029E_333B,
            ResourceType::MIXR => 0x02C9_EFF2,
            ResourceType::JAZZ => 0x02D5_DF13,
            ResourceType::OBJK => 0x02DC_343F,
            ResourceType::TKMK => 0x0332_60E3,
            ResourceType::XMLResource => 0x0333_406C,
            ResourceType::TXTC => 0x033A_1435,
            ResourceType::TXTF => 0x0341_ACC9,
            ResourceType::CASP => 0x034A_EECB,
            ResourceType::SkinTone => 0x0354_796A,
            ResourceType::HairTone => 0x0355_5BA8,
            ResourceType::BoneDelta => 0x0355_E0A6,
            ResourceType::FACE => 0x0358_B08A,
            ResourceType::ITUN => 0x03B3_3DDF,
            ResourceType::LITE => 0x03B4_C61D,
            ResourceType::CCHE => 0x03D8_43C2,
            ResourceType::DETL => 0x03D8_6EA4,
            ResourceType::CFEN => 0x0418_FE2A,
            ResourceType::COMP => 0x044A_E110,
            ResourceType::LotLoc => 0x046A_7235,
            ResourceType::LotID => 0x0498_DA7E,
            ResourceType::CSTR => 0x049C_A4CD,
            ResourceType::StairLocation => 0x04A0_9283,
            ResourceType::WorldDetail => 0x04A4_D951,
            ResourceType::CPRX => 0x04AC_5D93,
            ResourceType::CTTL => 0x04B3_0669,
            ResourceType::CRAL => 0x04C5_8103,
            ResourceType::CMRU => 0x04D8_2D90,
            ResourceType::CTPT => 0x04ED_4BB2,
            ResourceType::CFIR => 0x04F3_CC01,
            ResourceType::SBNO => 0x04F5_1033,
            ResourceType::SIME => 0x04F8_8964,
            ResourceType::CBLN => 0x051D_F2DD,
            ResourceType::SimSNAPUnk => 0x0580_A2CD,
            ResourceType::SimSNAPSmall => 0x0580_A2CE,
            ResourceType::SimSNAPLarge => 0x0580_A2CF,
            ResourceType::UPST => 0x0591_B1AF,
            ResourceType::TWNI => 0x0668_F635,
            ResourceType::OBJIconSmall => 0x2E75_C764,
            ResourceType::OBJIconMedium => 0x2E75_C765,
            ResourceType::OBJIconLarge => 0x2E75_C766,
            ResourceType::OBJIconXLarge => 0x2E75_C767,
            ResourceType::UIImageTGA => 0x2F7D_0002,
            ResourceType::UIImagePNG => 0x2F7D_0004,
            ResourceType::OBJD => 0x319E_4F1D,
            ResourceType::TravelSNAP => 0x5437_2472,
            ResourceType::FamilySNAPSmall => 0x6B6D_837D,
            ResourceType::FamilySNAPMedium => 0x6B6D_837E,
            ResourceType::FamilySNAPLarge => 0x6B6D_837F,
            ResourceType::XMLManifest => 0x73E9_3EEB,
            ResourceType::PTRN => 0xD4D9_FBE5,
            ResourceType::LotIconSmall => 0xD84E_7FC5,
            ResourceType::LotIconMedium => 0xD84E_7FC6,
            ResourceType::LotIconLarge => 0xD84E_7FC7,
            ResourceType::ColorThumb => 0xFCEA_B65B,
        }
    }

    /// The name of the type.
    pub open spec fn name_of(self) -> Seq<char> {
        match self {
            ResourceType::Unknown => "Unknown"@,
            ResourceType::BONE => "BONE"@,
            ResourceType::IMG => "IMG"@,
            ResourceType::SPT => "SPT"@,
            ResourceType::GEOM => "GEOM"@,
            ResourceType::NMAP => "NMAP"@,
            ResourceType::MODL => "MODL"@,
            ResourceType::AUDSNR => "AUDSNR"@,
            ResourceType::AUDSNS => "AUDSNS"@,
            ResourceType::VBUF1 => "VBUF1"@,
            ResourceType::IBUF1 => "IBUF1"@,
            ResourceType::VRTF => "VRTF"@,
            ResourceType::MATD => "MATD"@,
            ResourceType::SKIN => "SKIN"@,
            ResourceType::MLOD => "MLOD"@,
            ResourceType::MTST => "MTST"@,
            ResourceType::SPT2 => "SPT2"@,
            ResourceType::VBUF2 => "VBUF2"@,
            ResourceType::IBUF2 => "IBUF2"@,
            ResourceType::CSS => "CSS"@,
            ResourceType::LAYO => "LAYO"@,
            ResourceType::SIMO => "SIMO"@,
            ResourceType::VOCE => "VOCE"@,
            ResourceType::MIXR => "MIXR"@,
            ResourceType::JAZZ => "JAZZ"@,
            ResourceType::OBJK => "OBJK"@,
            ResourceType::TKMK => "TKMK"@,
            ResourceType::XMLResource => "XMLResource"@,
            ResourceType::TXTC => "TXTC"@,
            ResourceType::TXTF => "TXTF"@,
            ResourceType::CASP => "CASP"@,
            ResourceType::SkinTone => "SkinTone"@,
            ResourceType::HairTone => "HairTone"@,
            ResourceType::BoneDelta => "BoneDelta"@,
            ResourceType::FACE => "FACE"@,
            ResourceType::ITUN => "ITUN"@,
            ResourceType::LITE => "LITE"@,
            ResourceType::CCHE => "CCHE"@,
            ResourceType::DETL => "DETL"@,
            ResourceType::CFEN => "CFEN"@,
            ResourceType::COMP => "COMP"@,
            ResourceType::LotLoc => "LotLoc"@,
            ResourceType::LotID => "LotID"@,
            ResourceType::CSTR => "CSTR"@,
            ResourceType::StairLocation => "StairLocation"@,
            ResourceType::WorldDetail => "WorldDetail"@,
            ResourceType::CPRX => "CPRX"@,
            ResourceType::CTTL => "CTTL"@,
            ResourceType::CRAL => "CRAL"@,
            ResourceType::CMRU => "CMRU"@,
            ResourceType::CTPT => "CTPT"@,
            ResourceType::CFIR => "CFIR"@,
            ResourceType::SBNO => "SBNO"@,
            ResourceType::SIME => "SIME"@,
            ResourceType::CBLN => "CBLN"@,
            ResourceType::SimSNAPUnk => "SimSNAPUnk"@,
            ResourceType::SimSNAPSmall => "SimSNAPSmall"@,
            ResourceType::SimSNAPLarge => "SimSNAPLarge"@,
            ResourceType::UPST => "UPST"@,
            ResourceType::TWNI => "TWNI"@,
            ResourceType::OBJIconSmall => "OBJIconSmall"@,
            ResourceType::OBJIconMedium => "OBJIconMedium"@,
            ResourceType::OBJIconLarge => "OBJIconLarge"@,
            ResourceType::OBJIconXLarge => "OBJIconXLarge"@,
            ResourceType::UIImageTGA => "UIImageTGA"@,
            ResourceType::UIImagePNG => "UIImagePNG"@,
            ResourceType::OBJD => "OBJD"@,
            ResourceType::TravelSNAP => "TravelSNAP"@,
            ResourceType::FamilySNAPSmall => "FamilySNAPSmall"@,
            ResourceType::FamilySNAPMedium => "FamilySNAPMedium"@,
            ResourceType::FamilySNAPLarge => "FamilySNAPLarge"@,
            ResourceType::XMLManifest => "XMLManifest"@,
            ResourceType::PTRN => "PTRN"@,
            ResourceType::LotIconSmall => "LotIconSmall"@,
            ResourceType::LotIconMedium => "LotIconMedium"@,
            ResourceType::LotIconLarge => "LotIconLarge"@,
            ResourceType::ColorThumb => "ColorThumb"@,
        }
    }

    /// The 32-bit code of the type.
    pub fn code(self) -> (r: u32)
        ensures
            r == self.code_of(),
    {
        match self {
            ResourceType::Unknown => 0,
            ResourceType::BONE => 0x00AE_6C67,
            ResourceType::IMG => 0x00B2_D882,
            ResourceType::SPT => 0x00B5_52EA,
            ResourceType::GEOM => 0x015A_1849,
            ResourceType::NMAP => 0x0166_038C,
            ResourceType::MODL => 0x0166_1233,
            ResourceType::AUDSNR => 0x01A5_27DB,
            ResourceType::AUDSNS => 0x01EE_F63A,
            ResourceType::VBUF1 => 0x01D0_E6FB,
            ResourceType::IBUF1 => 0x01D0_E70F,
            ResourceType::VRTF => 0x01D0_E723,
            ResourceType::MATD => 0x01D0_E75D,
            ResourceType::SKIN => 0x01D0_E76B,
            ResourceType::MLOD => 0x01D1_0F34,
            ResourceType::MTST => 0x0201_9972,
            ResourceType::SPT2 => 0x021D_7E8C,
            ResourceType::VBUF2 => 0x0229_684B,
            ResourceType::IBUF2 => 0x0229_684F,
            ResourceType::CSS => 0x025C_90A6,
            ResourceType::LAYO => 0x025C_95B6,
            ResourceType::SIMO => 0x025E_D6F4,
            ResourceType::VOCE => 0x029E_333B,
            ResourceType::MIXR => 0x02C9_EFF2,
            ResourceType::JAZZ => 0x02D5_DF13,
            ResourceType::OBJK => 0x02DC_343F,
            ResourceType::TKMK => 0x0332_60E3,
            ResourceType::XMLResource => 0x0333_406C,
            ResourceType::TXTC => 0x033A_1435,
            ResourceType::TXTF => 0x0341_ACC9,
            ResourceType::CASP => 0x034A_EECB,
            ResourceType::SkinTone => 0x0354_796A,
            ResourceType::HairTone => 0x0355_5BA8,
            ResourceType::BoneDelta => 0x0355_E0A6,
            ResourceType::FACE => 0x0358_B08A,
            ResourceType::ITUN => 0x03B3_3DDF,
            ResourceType::LITE => 0x03B4_C61D,
            ResourceType::CCHE => 0x03D8_43C2,
            ResourceType::DETL => 0x03D8_6EA4,
            ResourceType::CFEN => 0x0418_FE2A,
            ResourceType::COMP => 0x044A_E110,
            ResourceType::LotLoc => 0x046A_7235,
            ResourceType::LotID => 0x0498_DA7E,
            ResourceType::CSTR => 0x049C_A4CD,
            ResourceType::StairLocation => 0x04A0_9283,
            ResourceType::WorldDetail => 0x04A4_D951,
            ResourceType::CPRX => 0x04AC_5D93,
            ResourceType::CTTL => 0x04B3_0669,
            ResourceType::CRAL => 0x04C5_8103,
            ResourceType::CMRU => 0x04D8_2D90,
            ResourceType::CTPT => 0x04ED_4BB2,
            ResourceType::CFIR => 0x04F3_CC01,
            ResourceType::SBNO => 0x04F5_1033,
            ResourceType::SIME => 0x04F8_8964,
            ResourceType::CBLN => 0x051D_F2DD,
            ResourceType::SimSNAPUnk => 0x0580_A2CD,
            ResourceType::SimSNAPSmall => 0x0580_A2CE,
            ResourceType::SimSNAPLarge => 0x0580_A2CF,
            ResourceType::UPST => 0x0591_B1AF,
            ResourceType::TWNI => 0x0668_F635,
            ResourceType::OBJIconSmall => 0x2E75_C764,
            ResourceType::OBJIconMedium => 0x2E75_C765,
            ResourceType::OBJIconLarge => 0x2E75_C766,
            ResourceType::OBJIconXLarge => 0x2E75_C767,
            ResourceType::UIImageTGA => 0x2F7D_0002,
            ResourceType::UIImagePNG => 0x2F7D_0004,
            ResourceType::OBJD => 0x319E_4F1D,
            ResourceType::TravelSNAP => 0x5437_2472,
            ResourceType::FamilySNAPSmall => 0x6B6D_837D,
            ResourceType::FamilySNAPMedium => 0x6B6D_837E,
            ResourceType::FamilySNAPLarge => 0x6B6D_837F,
            ResourceType::XMLManifest => 0x73E9_3EEB,
            ResourceType::PTRN => 0xD4D9_FBE5,
            ResourceType::LotIconSmall => 0xD84E_7FC5,
            ResourceType::LotIconMedium => 0xD84E_7FC6,
            ResourceType::LotIconLarge => 0xD84E_7FC7,
            ResourceType::ColorThumb => 0xFCEA_B65B,
        }
    }

    /// The name of the type.
    pub fn name(self) -> (r: &'static str)
        ensures
            r@ == self.name_of(),
    {
        match self {
            ResourceType::Unknown => "Unknown",
            ResourceType::BONE => "BONE",
            ResourceType::IMG => "IMG",
            ResourceType::SPT => "SPT",
            ResourceType::GEOM => "GEOM",
            ResourceType::NMAP => "NMAP",
            ResourceType::MODL => "MODL",
            ResourceType::AUDSNR => "AUDSNR",
            ResourceType::AUDSNS => "AUDSNS",
            ResourceType::VBUF1 => "VBUF1",
            ResourceType::IBUF1 => "IBUF1",
            ResourceType::VRTF => "VRTF",
            ResourceType::MATD => "MATD",
            ResourceType::SKIN => "SKIN",
            ResourceType::MLOD => "MLOD",
            ResourceType::MTST => "MTST",
            ResourceType::SPT2 => "SPT2",
            ResourceType::VBUF2 => "VBUF2",
            ResourceType::IBUF2 => "IBUF2",
            ResourceType::CSS => "CSS",
            ResourceType::LAYO => "LAYO",
            ResourceType::SIMO => "SIMO",
            ResourceType::VOCE => "VOCE",
            ResourceType::MIXR => "MIXR",
            ResourceType::JAZZ => "JAZZ",
            ResourceType::OBJK => "OBJK",
            ResourceType::TKMK => "TKMK",
            ResourceType::XMLResource => "XMLResource",
            ResourceType::TXTC => "TXTC",
            ResourceType::TXTF => "TXTF",
            ResourceType::CASP => "CASP",
            ResourceType::SkinTone => "SkinTone",
            ResourceType::HairTone => "HairTone",
            ResourceType::BoneDelta => "BoneDelta",
            ResourceType::FACE => "FACE",
            ResourceType::ITUN => "ITUN",
            ResourceType::LITE => "LITE",
            ResourceType::CCHE => "CCHE",
            ResourceType::DETL => "DETL",
            ResourceType::CFEN => "CFEN",
            ResourceType::COMP => "COMP",
            ResourceType::LotLoc => "LotLoc",
            ResourceType::LotID => "LotID",
            ResourceType::CSTR => "CSTR",
            ResourceType::StairLocation => "StairLocation",
            ResourceType::WorldDetail => "WorldDetail",
            ResourceType::CPRX => "CPRX",
            ResourceType::CTTL => "CTTL",
            ResourceType::CRAL => "CRAL",
            ResourceType::CMRU => "CMRU",
            ResourceType::CTPT => "CTPT",
            ResourceType::CFIR => "CFIR",
            ResourceType::SBNO => "SBNO",
            ResourceType::SIME => "SIME",
            ResourceType::CBLN => "CBLN",
            ResourceType::SimSNAPUnk => "SimSNAPUnk",
            ResourceType::SimSNAPSmall => "SimSNAPSmall",
            ResourceType::SimSNAPLarge => "SimSNAPLarge",
            ResourceType::UPST => "UPST",
            ResourceType::TWNI => "TWNI",
            ResourceType::OBJIconSmall => "OBJIconSmall",
            ResourceType::OBJIconMedium => "OBJIconMedium",
            ResourceType::OBJIconLarge => "OBJIconLarge",
            ResourceType::OBJIconXLarge => "OBJIconXLarge",
            ResourceType::UIImageTGA => "UIImageTGA",
            ResourceType::UIImagePNG => "UIImagePNG",
            ResourceType::OBJD => "OBJD",
            ResourceType::TravelSNAP => "TravelSNAP",
            ResourceType::FamilySNAPSmall => "FamilySNAPSmall",
            ResourceType::FamilySNAPMedium => "FamilySNAPMedium",
            ResourceType::FamilySNAPLarge => "FamilySNAPLarge",
            ResourceType::XMLManifest => "XMLManifest",
            ResourceType::PTRN => "PTRN",
            ResourceType::LotIconSmall => "LotIconSmall",
            ResourceType::LotIconMedium => "LotIconMedium",
            ResourceType::LotIconLarge => "LotIconLarge",
            ResourceType::ColorThumb => "ColorThumb",
        }
    }

    /// The type that has the code `code`, if there is one.
    pub fn from_code(code: u32) -> (r: Option<ResourceType>)
        ensures
            match r {
                Some(t) => t.code_of() == code,
                None => forall|t: ResourceType| t.code_of() != code,
            },
    {
        if code == 0 {
            Some(ResourceType::Unknown)
        } else if code == 0x00AE_6C67 {
            Some(ResourceType::BONE)
        } else if code == 0x00B2_D882 {
            Some(ResourceType::IMG)
        } else if code == 0x00B5_52EA {
            Some(ResourceType::SPT)
        } else if code == 0x015A_1849 {
            Some(ResourceType::GEOM)
        } else if code == 0x0166_038C {
            Some(ResourceType::NMAP)
        } else if code == 0x0166_1233 {
            Some(ResourceType::MODL)
        } else if code == 0x01A5_27DB {
            Some(ResourceType::AUDSNR)
        } else if code == 0x01EE_F63A {
            Some(ResourceType::AUDSNS)
        } else if code == 0x01D0_E6FB {
            Some(ResourceType::VBUF1)
        } else if code == 0x01D0_E70F {
            Some(ResourceType::IBUF1)
        } else if code == 0x01D0_E723 {
            Some(ResourceType::VRTF)
        } else if code == 0x01D0_E75D {
            Some(ResourceType::MATD)
        } else if code == 0x01D0_E76B {
            Some(ResourceType::SKIN)
        } else if code == 0x01D1_0F34 {
            Some(ResourceType::MLOD)
        } else if code == 0x0201_9972 {
            Some(ResourceType::MTST)
        } else if code == 0x021D_7E8C {
            Some(ResourceType::SPT2)
        } else if code == 0x0229_684B {
            Some(ResourceType::VBUF2)
        } else if code == 0x0229_684F {
            Some(ResourceType::IBUF2)
        } else if code == 0x025C_90A6 {
            Some(ResourceType::CSS)
        } else if code == 0x025C_95B6 {
            Some(ResourceType::LAYO)
        } else if code == 0x025E_D6F4 {
            Some(ResourceType::SIMO)
        } else if code == 0x029E_333B {
            Some(ResourceType::VOCE)
        } else if code == 0x02C9_EFF2 {
            Some(ResourceType::MIXR)
        } else if code == 0x02D5_DF13 {
            Some(ResourceType::JAZZ)
        } else if code == 0x02DC_343F {
            Some(ResourceType::OBJK)
        } else if code == 0x0332_60E3 {
            Some(ResourceType::TKMK)
        } else if code == 0x0333_406C {
            Some(ResourceType::XMLResource)
        } else if code == 0x033A_1435 {
            Some(ResourceType::TXTC)
        } else if code == 0x0341_ACC9 {
            Some(ResourceType::TXTF)
        } else if code == 0x034A_EECB {
            Some(ResourceType::CASP)
        } else if code == 0x0354_796A {
            Some(ResourceType::SkinTone)
        } else if code == 0x0355_5BA8 {
            Some(ResourceType::HairTone)
        } else if code == 0x0355_E0A6 {
            Some(ResourceType::BoneDelta)
        } else if code == 0x0358_B08A {
            Some(ResourceType::FACE)
        } else if code == 0x03B3_3DDF {
            Some(ResourceType::ITUN)
        } else if code == 0x03B4_C61D {
            Some(ResourceType::LITE)
        } else if code == 0x03D8_43C2 {
            Some(ResourceType::CCHE)
        } else if code == 0x03D8_6EA4 {
            Some(ResourceType::DETL)
        } else if code == 0x0418_FE2A {
            Some(ResourceType::CFEN)
        } else if code == 0x044A_E110 {
            Some(ResourceType::COMP)
        } else if code == 0x046A_7235 {
            Some(ResourceType::LotLoc)
        } else if code == 0x0498_DA7E {
            Some(ResourceType::LotID)
        } else if code == 0x049C_A4CD {
            Some(ResourceType::CSTR)
        } else if code == 0x04A0_9283 {
            Some(ResourceType::StairLocation)
        } else if code == 0x04A4_D951 {
            Some(ResourceType::WorldDetail)
        } else if code == 0x04AC_5D93 {
            Some(ResourceType::CPRX)
        } else if code == 0x04B3_0669 {
            Some(ResourceType::CTTL)
        } else if code == 0x04C5_8103 {
            Some(ResourceType::CRAL)
        } else if code == 0x04D8_2D90 {
            Some(ResourceType::CMRU)
        } else if code == 0x04ED_4BB2 {
            Some(ResourceType::CTPT)
        } else if code == 0x04F3_CC01 {
            Some(ResourceType::CFIR)
        } else if code == 0x04F5_1033 {
            Some(ResourceType::SBNO)
        } else if code == 0x04F8_8964 {
            Some(ResourceType::SIME)
        } else if code == 0x051D_F2DD {
            Some(ResourceType::CBLN)
        } else if code == 0x0580_A2CD {
            Some(ResourceType::SimSNAPUnk)
        } else if code == 0x0580_A2CE {
            Some(ResourceType::SimSNAPSmall)
        } else if code == 0x0580_A2CF {
            Some(ResourceType::SimSNAPLarge)
        } else if code == 0x0591_B1AF {
            Some(ResourceType::UPST)
        } else if code == 0x0668_F635 {
            Some(ResourceType::TWNI)
        } else if code == 0x2E75_C764 {
            Some(ResourceType::OBJIconSmall)
        } else if code == 0x2E75_C765 {
            Some(ResourceType::OBJIconMedium)
        } else if code == 0x2E75_C766 {
            Some(ResourceType::OBJIconLarge)
        } else if code == 0x2E75_C767 {
            Some(ResourceType::OBJIconXLarge)
        } else if code == 0x2F7D_0002 {
            Some(ResourceType::UIImageTGA)
        } else if code == 0x2F7D_0004 {
            Some(ResourceType::UIImagePNG)
        } else if code == 0x319E_4F1D {
            Some(ResourceType::OBJD)
        } else if code == 0x5437_2472 {
            Some(ResourceType::TravelSNAP)
        } else if code == 0x6B6D_837D {
            Some(ResourceType::FamilySNAPSmall)
        } else if code == 0x6B6D_837E {
            Some(ResourceType::FamilySNAPMedium)
        } else if code == 0x6B6D_837F {
            Some(ResourceType::FamilySNAPLarge)
        } else if code == 0x73E9_3EEB {
            Some(ResourceType::XMLManifest)
        } else if code == 0xD4D9_FBE5 {
            Some(ResourceType::PTRN)
        } else if code == 0xD84E_7FC5 {
            Some(ResourceType::LotIconSmall)
        } else if code == 0xD84E_7FC6 {
            Some(ResourceType::LotIconMedium)
        } else if code == 0xD84E_7FC7 {
            Some(ResourceType::LotIconLarge)
        } else if code == 0xFCEA_B65B {
            Some(ResourceType::ColorThumb)
        } else {
            None
        }
    }
}

/// The codes that the other modules know by name are the codes of their
/// types.
pub proof fn lemma_named_codes()
    ensures
        ResourceType::NMAP.code_of() == nmap::NMAP_TYPE,
        ResourceType::GEOM.code_of() == geom::GEOM_TYPE,
        ResourceType::NMAP.code_of() == crate::dbpf::query::NMAP,
        ResourceType::CASP.code_of() == crate::dbpf::query::CASP,
        ResourceType::FACE.code_of() == crate::dbpf::query::FACE,
        ResourceType::SkinTone.code_of() == crate::dbpf::query::SKIN_TONE,
        ResourceType::OBJD.code_of() == crate::dbpf::query::OBJD,
        ResourceType::XMLResource.code_of() == crate::dbpf::query::XML_RESOURCE,
{
}

/// The code of the type whose name is `name`, if there is one.
pub open spec fn code_for_name(name: Seq<char>) -> Option<u32> {
    if name == "Unknown"@ {
        Some(0u32)
    } else if name == "BONE"@ {
        Some(0x00AE_6C67u32)
    } else if name == "IMG"@ {
        Some(0x00B2_D882u32)
    } else if name == "SPT"@ {
        Some(0x00B5_52EAu32)
    } else if name == "GEOM"@ {
        Some(0x015A_1849u32)
    } else if name == "NMAP"@ {
        Some(0x0166_038Cu32)
    } else if name == "MODL"@ {
        Some(0x0166_1233u32)
    } else if name == "AUDSNR"@ {
        Some(0x01A5_27DBu32)
    } else if name == "AUDSNS"@ {
        Some(0x01EE_F63Au32)
    } else if name == "VBUF1"@ {
        Some(0x01D0_E6FBu32)
    } else if name == "IBUF1"@ {
        Some(0x01D0_E70Fu32)
    } else if name == "VRTF"@ {
        Some(0x01D0_E723u32)
    } else if name == "MATD"@ {
        Some(0x01D0_E75Du32)
    } else if name == "SKIN"@ {
        Some(0x01D0_E76Bu32)
    } else if name == "MLOD"@ {
        Some(0x01D1_0F34u32)
    } else if name == "MTST"@ {
        Some(0x0201_9972u32)
    } else if name == "SPT2"@ {
        Some(0x021D_7E8Cu32)
    } else if name == "VBUF2"@ {
        Some(0x0229_684Bu32)
    } else if name == "IBUF2"@ {
        Some(0x0229_684Fu32)
    } else if name == "CSS"@ {
        Some(0x025C_90A6u32)
    } else if name == "LAYO"@ {
        Some(0x025C_95B6u32)
    } else if name == "SIMO"@ {
        Some(0x025E_D6F4u32)
    } else if name == "VOCE"@ {
        Some(0x029E_333Bu32)
    } else if name == "MIXR"@ {
        Some(0x02C9_EFF2u32)
    } else if name == "JAZZ"@ {
        Some(0x02D5_DF13u32)
    } else if name == "OBJK"@ {
        Some(0x02DC_343Fu32)
    } else if name == "TKMK"@ {
        Some(0x0332_60E3u32)
    } else if name == "XMLResource"@ {
        Some(0x0333_406Cu32)
    } else if name == "TXTC"@ {
        Some(0x033A_1435u32)
    } else if name == "TXTF"@ {
        Some(0x0341_ACC9u32)
    } else if name == "CASP"@ {
        Some(0x034A_EECBu32)
    } else if name == "SkinTone"@ {
        Some(0x0354_796Au32)
    } else if name == "HairTone"@ {
        Some(0x0355_5BA8u32)
    } else if name == "BoneDelta"@ {
        Some(0x0355_E0A6u32)
    } else if name == "FACE"@ {
        Some(0x0358_B08Au32)
    } else if name == "ITUN"@ {
        Some(0x03B3_3DDFu32)
    } else if name == "LITE"@ {
        Some(0x03B4_C61Du32)
    } else if name == "CCHE"@ {
        Some(0x03D8_43C2u32)
    } else if name == "DETL"@ {
        Some(0x03D8_6EA4u32)
    } else if name == "CFEN"@ {
        Some(0x0418_FE2Au32)
    } else if name == "COMP"@ {
        Some(0x044A_E110u32)
    } else if name == "LotLoc"@ {
        Some(0x046A_7235u32)
    } else if name == "LotID"@ {
        Some(0x0498_DA7Eu32)
    } else if name == "CSTR"@ {
        Some(0x049C_A4CDu32)
    } else if name == "StairLocation"@ {
        Some(0x04A0_9283u32)
    } else if name == "WorldDetail"@ {
        Some(0x04A4_D951u32)
    } else if name == "CPRX"@ {
        Some(0x04AC_5D93u32)
    } else if name == "CTTL"@ {
        Some(0x04B3_0669u32)
    } else if name == "CRAL"@ {
        Some(0x04C5_8103u32)
    } else if name == "CMRU"@ {
        Some(0x04D8_2D90u32)
    } else if name == "CTPT"@ {
        Some(0x04ED_4BB2u32)
    } else if name == "CFIR"@ {
        Some(0x04F3_CC01u32)
    } else if name == "SBNO"@ {
        Some(0x04F5_1033u32)
    } else if name == "SIME"@ {
        Some(0x04F8_8964u32)
    } else if name == "CBLN"@ {
        Some(0x051D_F2DDu32)
    } else if name == "SimSNAPUnk"@ {
        Some(0x0580_A2CDu32)
    } else if name == "SimSNAPSmall"@ {
        Some(0x0580_A2CEu32)
    } else if name == "SimSNAPLarge"@ {
        Some(0x0580_A2CFu32)
    } else if name == "UPST"@ {
        Some(0x0591_B1AFu32)
    } else if name == "TWNI"@ {
        Some(0x0668_F635u32)
    } else if name == "OBJIconSmall"@ {
        Some(0x2E75_C764u32)
    } else if name == "OBJIconMedium"@ {
        Some(0x2E75_C765u32)
    } else if name == "OBJIconLarge"@ {
        Some(0x2E75_C766u32)
    } else if name == "OBJIconXLarge"@ {
        Some(0x2E75_C767u32)
    } else if name == "UIImageTGA"@ {
        Some(0x2F7D_0002u32)
    } else if name == "UIImagePNG"@ {
        Some(0x2F7D_0004u32)
    } else if name == "OBJD"@ {
        Some(0x319E_4F1Du32)
    } else if name == "TravelSNAP"@ {
        Some(0x5437_2472u32)
    } else if name == "FamilySNAPSmall"@ {
        Some(0x6B6D_837Du32)
    } else if name == "FamilySNAPMedium"@ {
        Some(0x6B6D_837Eu32)
    } else if name == "FamilySNAPLarge"@ {
        Some(0x6B6D_837Fu32)
    } else if name == "XMLManifest"@ {
        Some(0x73E9_3EEBu32)
    } else if name == "PTRN"@ {
        Some(0xD4D9_FBE5u32)
    } else if name == "LotIconSmall"@ {
        Some(0xD84E_7FC5u32)
    } else if name == "LotIconMedium"@ {
        Some(0xD84E_7FC6u32)
    } else if name == "LotIconLarge"@ {
        Some(0xD84E_7FC7u32)
    } else if name == "ColorThumb"@ {
        Some(0xFCEA_B65Bu32)
    } else {
        None
    }
}

/// `str`'s `==`: whether the two strings hold the same characters.
#[verifier::external_body]
fn str_eq(a: &str, b: &str) -> (r: bool)
    ensures
        r == (a@ == b@),
{
    a == b
}

/// The code of the type whose name is `name`, if there is one.
pub fn type_code_for_name(name: &str) -> (r: Option<u32>)
    ensures
        r == code_for_name(name@),
{
    if str_eq(name, "Unknown") {
        Some(0)
    } else if str_eq(name, "BONE") {
        Some(0x00AE_6C67)
    } else if str_eq(name, "IMG") {
        Some(0x00B2_D882)
    } else if str_eq(name, "SPT") {
        Some(0x00B5_52EA)
    } else if str_eq(name, "GEOM") {
        Some(0x015A_1849)
    } else if str_eq(name, "NMAP") {
        Some(0x0166_038C)
    } else if str_eq(name, "MODL") {
        Some(0x0166_1233)
    } else if str_eq(name, "AUDSNR") {
        Some(0x01A5_27DB)
    } else if str_eq(name, "AUDSNS") {
        Some(0x01EE_F63A)
    } else if str_eq(name, "VBUF1") {
        Some(0x01D0_E6FB)
    } else if str_eq(name, "IBUF1") {
        Some(0x01D0_E70F)
    } else if str_eq(name, "VRTF") {
        Some(0x01D0_E723)
    } else if str_eq(name, "MATD") {
        Some(0x01D0_E75D)
    } else if str_eq(name, "SKIN") {
        Some(0x01D0_E76B)
    } else if str_eq(name, "MLOD") {
        Some(0x01D1_0F34)
    } else if str_eq(name, "MTST") {
        Some(0x0201_9972)
    } else if str_eq(name, "SPT2") {
        Some(0x021D_7E8C)
    } else if str_eq(name, "VBUF2") {
        Some(0x0229_684B)
    } else if str_eq(name, "IBUF2") {
        Some(0x0229_684F)
    } else if str_eq(name, "CSS") {
        Some(0x025C_90A6)
    } else if str_eq(name, "LAYO") {
        Some(0x025C_95B6)
    } else if str_eq(name, "SIMO") {
        Some(0x025E_D6F4)
    } else if str_eq(name, "VOCE") {
        Some(0x029E_333B)
    } else if str_eq(name, "MIXR") {
        Some(0x02C9_EFF2)
    } else if str_eq(name, "JAZZ") {
        Some(0x02D5_DF13)
    } else if str_eq(name, "OBJK") {
        Some(0x02DC_343F)
    } else if str_eq(name, "TKMK") {
        Some(0x0332_60E3)
    } else if str_eq(name, "XMLResource") {
        Some(0x0333_406C)
    } else if str_eq(name, "TXTC") {
        Some(0x033A_1435)
    } else if str_eq(name, "TXTF") {
        Some(0x0341_ACC9)
    } else if str_eq(name, "CASP") {
        Some(0x034A_EECB)
    } else if str_eq(name, "SkinTone") {
        Some(0x0354_796A)
    } else if str_eq(name, "HairTone") {
        Some(0x0355_5BA8)
    } else if str_eq(name, "BoneDelta") {
        Some(0x0355_E0A6)
    } else if str_eq(name, "FACE") {
        Some(0x0358_B08A)
    } else if str_eq(name, "ITUN") {
        Some(0x03B3_3DDF)
    } else if str_eq(name, "LITE") {
        Some(0x03B4_C61D)
    } else if str_eq(name, "CCHE") {
        Some(0x03D8_43C2)
    } else if str_eq(name, "DETL") {
        Some(0x03D8_6EA4)
    } else if str_eq(name, "CFEN") {
        Some(0x0418_FE2A)
    } else if str_eq(name, "COMP") {
        Some(0x044A_E110)
    } else if str_eq(name, "LotLoc") {
        Some(0x046A_7235)
    } else if str_eq(name, "LotID") {
        Some(0x0498_DA7E)
    } else if str_eq(name, "CSTR") {
        Some(0x049C_A4CD)
    } else if str_eq(name, "StairLocation") {
        Some(0x04A0_9283)
    } else if str_eq(name, "WorldDetail") {
        Some(0x04A4_D951)
    } else if str_eq(name, "CPRX") {
        Some(0x04AC_5D93)
    } else if str_eq(name, "CTTL") {
        Some(0x04B3_0669)
    } else if str_eq(name, "CRAL") {
        Some(0x04C5_8103)
    } else if str_eq(name, "CMRU") {
        Some(0x04D8_2D90)
    } else if str_eq(name, "CTPT") {
        Some(0x04ED_4BB2)
    } else if str_eq(name, "CFIR") {
        Some(0x04F3_CC01)
    } else if str_eq(name, "SBNO") {
        Some(0x04F5_1033)
    } else if str_eq(name, "SIME") {
        Some(0x04F8_8964)
    } else if str_eq(name, "CBLN") {
        Some(0x051D_F2DD)
    } else if str_eq(name, "SimSNAPUnk") {
        Some(0x0580_A2CD)
    } else if str_eq(name, "SimSNAPSmall") {
        Some(0x0580_A2CE)
    } else if str_eq(name, "SimSNAPLarge") {
        Some(0x0580_A2CF)
    } else if str_eq(name, "UPST") {
        Some(0x0591_B1AF)
    } else if str_eq(name, "TWNI") {
        Some(0x0668_F635)
    } else if str_eq(name, "OBJIconSmall") {
        Some(0x2E75_C764)
    } else if str_eq(name, "OBJIconMedium") {
        Some(0x2E75_C765)
    } else if str_eq(name, "OBJIconLarge") {
        Some(0x2E75_C766)
    } else if str_eq(name, "OBJIconXLarge") {
        Some(0x2E75_C767)
    } else if str_eq(name, "UIImageTGA") {
        Some(0x2F7D_0002)
    } else if str_eq(name, "UIImagePNG") {
        Some(0x2F7D_0004)
    } else if str_eq(name, "OBJD") {
        Some(0x319E_4F1D)
    } else if str_eq(name, "TravelSNAP") {
        Some(0x5437_2472)
    } else if str_eq(name, "FamilySNAPSmall") {
        Some(0x6B6D_837D)
    } else if str_eq(name, "FamilySNAPMedium") {
        Some(0x6B6D_837E)
    } else if str_eq(name, "FamilySNAPLarge") {
        Some(0x6B6D_837F)
    } else if str_eq(name, "XMLManifest") {
        Some(0x73E9_3EEB)
    } else if str_eq(name, "PTRN") {
        Some(0xD4D9_FBE5)
    } else if str_eq(name, "LotIconSmall") {
        Some(0xD84E_7FC5)
    } else if str_eq(name, "LotIconMedium") {
        Some(0xD84E_7FC6)
    } else if str_eq(name, "LotIconLarge") {
        Some(0xD84E_7FC7)
    } else if str_eq(name, "ColorThumb") {
        Some(0xFCEA_B65B)
    } else {
        None
    }
}

/// The codes of the resources that hold a PNG image: thumbnails of several
/// sizes, snapshots, icons and images of the user interface.
pub const PNG_RESOURCES: [u32; 41] = [
    0x0580_A2CD,
    0x0580_A2CE,
    0x0580_A2CF,
    0x0580_A2B4,
    0x0580_A2B5,
    0x0580_A2B6,
    0x0589_DC44,
    0x0589_DC45,
    0x0589_DC46,
    0x05B1_7698,
    0x05B1_7699,
    0x05B1_769A,
    0x05B1_B524,
    0x05B1_B525,
    0x05B1_B526,
    0x0668_F635,
    0x2653_E3C8,
    0x2653_E3C9,
    0x2653_E3CA,
    0x2D42_84F0,
    0x2D42_84F1,
    0x2D42_84F2,
    0x2E75_C764,
    0x2E75_C765,
    0x2E75_C766,
    0x2E75_C767,
    0x2F7D_0004,
    0x5437_2472,
    0x5DE9_DBA0,
    0x5DE9_DBA1,
    0x5DE9_DBA2,
    0x626F_60CC,
    0x626F_60CD,
    0x626F_60CE,
    0x6B6D_837D,
    0x6B6D_837E,
    0x6B6D_837F,
    0xD84E_7FC5,
    0xD84E_7FC6,
    0xD84E_7FC7,
    0xFCEA_B65B,
];

/// The codes of the resources that hold a PNG image, as a sequence.
pub open spec fn png_resources() -> Seq<u32> {
    seq![
        0x0580_A2CDu32,
        0x0580_A2CEu32,
        0x0580_A2CFu32,
        0x0580_A2B4u32,
        0x0580_A2B5u32,
        0x0580_A2B6u32,
        0x0589_DC44u32,
        0x0589_DC45u32,
        0x0589_DC46u32,
        0x05B1_7698u32,
        0x05B1_7699u32,
        0x05B1_769Au32,
        0x05B1_B524u32,
        0x05B1_B525u32,
        0x05B1_B526u32,
        0x0668_F635u32,
        0x2653_E3C8u32,
        0x2653_E3C9u32,
        0x2653_E3CAu32,
        0x2D42_84F0u32,
        0x2D42_84F1u32,
        0x2D42_84F2u32,
        0x2E75_C764u32,
        0x2E75_C765u32,
        0x2E75_C766u32,
        0x2E75_C767u32,
        0x2F7D_0004u32,
        0x5437_2472u32,
        0x5DE9_DBA0u32,
        0x5DE9_DBA1u32,
        0x5DE9_DBA2u32,
        0x626F_60CCu32,
        0x626F_60CDu32,
        0x626F_60CEu32,
        0x6B6D_837Du32,
        0x6B6D_837Eu32,
        0x6B6D_837Fu32,
        0xD84E_7FC5u32,
        0xD84E_7FC6u32,
        0xD84E_7FC7u32,
        0xFCEA_B65Bu32,
    ]
}

/// There are 41 codes of PNG resources, and no code is listed twice.
pub proof fn lemma_png_resources_distinct()
    ensures
        png_resources().len() == 41,
        forall|i: int, j: int|
            0 <= i < j < 41 ==> #[trigger] png_resources()[i] != #[trigger] png_resources()[j],
{
}

/// Whether `resource` is the code of a resource that holds a PNG image.
pub fn resource_is_png(resource: u32) -> (r: bool)
    ensures
        r == png_resources().contains(resource),
{
    assert(PNG_RESOURCES@ =~= png_resources());
    let mut i: usize = 0;
    while i < 41
        invariant
            i <= 41,
            PNG_RESOURCES@ == png_resources(),
            forall|j: int| 0 <= j < i ==> png_resources()[j] != resource,
        decreases 41 - i,
    {
        if PNG_RESOURCES[i] == resource {
            return true;
        }
        i += 1;
    }
    false
}

} // verus!
