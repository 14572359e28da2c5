//! Board logic of a 3D chess-board viewer (coordinates, occupancy, move
//! generation, the two-phase selection protocol and the starting layout),
//! together with a small append-only text log store.
pub mod board;
pub mod dbmu;
pub mod layout;
pub mod moves;
pub mod selection;
pub mod text;
