//! The aquarium as the running program draws it: its own fish, bubbles and seaweed, and the
//! scene that one frame paints and one tick moves.
pub mod bubble;
pub mod fish;
pub mod scene;
pub mod seaweed;
