//! The built-in wallpaper sources.

pub mod bing;
pub mod earthview;
pub mod europeana;
pub mod nasa;
pub mod picsum;
pub mod spotlight;
pub mod wikimedia;

pub use bing::BingSource;
pub use earthview::EarthViewSource;
pub use europeana::EuropeanaSource;
pub use nasa::NasaApodSource;
pub use picsum::PicsumSource;
pub use spotlight::SpotlightSource;
pub use wikimedia::WikimediaPotdSource;
