pub mod ping_board;
pub mod shift_vec;
pub mod sponge;
pub mod sponge_settings;
pub mod table;

pub use ping_board::PingBoard;
pub use shift_vec::ShiftVec;
pub use sponge::Sponge;
pub use sponge_settings::SpongeSettings;
pub use table::Table;
