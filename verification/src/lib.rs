pub mod accord;
pub mod admin;
pub mod battle;
pub mod chance;
pub mod click;
pub mod command;
pub mod draw;
pub mod economy;
pub mod exact;
pub mod frontier;
pub mod game;
pub mod input;
pub mod line;
pub mod march;
pub mod news;
pub mod path;
pub mod pixel;
pub mod render;
pub mod requests;
pub mod rounding;
pub mod session;
pub mod single;
pub mod space;
pub mod spiral;
pub mod table;
pub mod terrain;
pub mod text;
pub mod tick;
pub mod tile_map;
pub mod version;
pub mod wall;
pub mod world;
