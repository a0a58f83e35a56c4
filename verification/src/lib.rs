//! Game Information Counter: the logic behind a stream HUD for Elden Ring.

pub mod boss_list;
pub mod bosses;
pub mod bought_laws;
pub mod config;
pub mod config_laws;
pub mod damage;
pub mod damage_laws;
pub mod drawing_laws;
pub mod effect_laws;
pub mod effect_state;
pub mod effects;
pub mod frame;
pub mod frame_laws;
pub mod hud;
pub mod i18n;
pub mod i18n_laws;
pub mod ini;
pub mod ini_laws;
pub mod input;
pub mod input_laws;
pub mod joining_laws;
pub mod labels;
pub mod language_laws;
pub mod layout;
pub mod learned;
pub mod list_laws;
pub mod msg;
pub mod naming_laws;
pub mod nickname_laws;
pub mod nicknames;
pub mod order;
pub mod outcomes;
pub mod panel;
pub mod panel_laws;
pub mod probe;
pub mod purchase_laws;
pub mod registry;
pub mod reset_laws;
pub mod restoring_laws;
pub mod rewards;
pub mod saving_laws;
pub mod scalar;
pub mod session_laws;
pub mod settings_laws;
pub mod tags;
pub mod text;
pub mod till;
pub mod till_laws;
pub mod timed_effects;
pub mod utf16;
pub mod values;
pub mod viewers;
pub mod world_laws;
