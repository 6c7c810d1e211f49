//! Game-data records synchronized to a client through the registry-data
//! packet. Only the records whose fields are plain values live here; their
//! serialized payloads are produced outside the library and carried as opaque
//! bytes by `RegistryEntry`.

use vstd::prelude::*;
use crate::varint::VarInt;

verus! {

pub struct ArmorTrimPattern {
    pub asset_id: String,
    pub template_item: String,
    pub description: String,
    pub decal: i8,
}

pub struct OverrideArmorMaterials {}

pub struct BannerPattern {
    pub asset_id: String,
    pub translation_key: String,
}

pub struct ParticleOptions {
    pub typee: String,
    pub value: Option<VarInt>,
}

pub struct Music {
    pub sound: String,
    pub min_delay: i32,
    pub max_delay: i32,
    pub replace_current_music: i8,
}

pub struct ChatType {
    pub chat: Decoration,
    pub narration: Decoration,
}

pub struct Decoration {
    pub translation_key: String,
    pub style: Option<String>,
    pub parameters: Vec<String>,
}

#[derive(Debug, Clone, Copy, PartialEq, Eq, Structural)]
pub enum DimensionEffect {
    Overworld,
    TheNether,
    TheEnd,
}

pub struct PaintingVariant {
    pub asset_id: String,
    pub height: i32,
    pub width: i32,
}

/// A chat decoration routing sender and content through one translation key.
pub open spec fn is_default_decoration(d: Decoration, key: Seq<char>) -> bool {
    &&& d.translation_key@ == key
    &&& d.style is None
    &&& d.parameters@.len() == 2
    &&& d.parameters@[0]@ == "sender"@
    &&& d.parameters@[1]@ == "content"@
}

impl Default for ChatType {
    fn default() -> (r: Self)
        ensures
            is_default_decoration(r.chat, "chat.type.text"@),
            is_default_decoration(r.narration, "chat.type.text.narrate"@),
    {
        let mut chat_parameters: Vec<String> = Vec::new();
        chat_parameters.push("sender".to_owned());
        chat_parameters.push("content".to_owned());
        let mut narration_parameters: Vec<String> = Vec::new();
        narration_parameters.push("sender".to_owned());
        narration_parameters.push("content".to_owned());
        Self {
            chat: Decoration {
                style: None,
                parameters: chat_parameters,
                translation_key: "chat.type.text".to_owned(),
            },
            narration: Decoration {
                style: None,
                parameters: narration_parameters,
                translation_key: "chat.type.text.narrate".to_owned(),
            },
        }
    }
}

impl Default for DimensionEffect {
    fn default() -> (r: Self)
        ensures
            r == DimensionEffect::Overworld,
    {
        DimensionEffect::Overworld
    }
}

impl Default for PaintingVariant {
    fn default() -> (r: Self)
        ensures
            r.asset_id@ == "minecraft:pigscene"@,
            r.height == 4,
            r.width == 4,
    {
        Self { asset_id: "minecraft:pigscene".to_owned(), height: 4, width: 4 }
    }
}

} // verus!
