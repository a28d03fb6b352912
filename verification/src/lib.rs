//! A terminal aquarium: fish, bubbles and seaweed that move each frame and are painted
//! into a grid of coloured cells.
pub mod canvas;
pub mod chance;
pub mod classic;
pub mod color;
pub mod entities;
pub mod layers;
pub mod renderer;
pub mod text;
