pub mod fonts;
pub mod commentary;
pub mod glyph_collector;
pub mod layouts;
pub mod card_assets;
pub mod text_metrics;
pub mod bidding_table;
