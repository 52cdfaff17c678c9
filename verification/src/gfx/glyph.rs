pub mod glyph_texture;
