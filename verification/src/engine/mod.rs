pub mod schema;
pub mod tokenizer;
pub mod sdl;
pub mod create;
pub mod inputs;
