//! A periodic alternate calendar over the civil (Gregorian) calendar at a
//! fixed UTC+8 offset.  Every seventeenth year starting from 2024 receives a
//! 64-day intercalary block inside its eighth month, and conversions in both
//! directions shift timestamps across the repeated insertions.

pub mod civil;
pub mod jumping;

pub use civil::CIVIL_MAX_TIMESTAMP;
pub use civil::CIVIL_MIN_TIMESTAMP;
pub use civil::MAX_CIVIL_YEAR;
pub use civil::MIN_CIVIL_YEAR;
pub use civil::SAFE_MAX_TIMESTAMP;
pub use civil::SAFE_MIN_TIMESTAMP;
pub use jumping::get_jumping_eve;
pub use jumping::get_jumping_eve_utc;
pub use jumping::get_jumping_s_day;
pub use jumping::get_jumping_s_day_utc;
pub use jumping::get_singularity;
pub use jumping::JumpingDateTime;
pub use jumping::JUMPING_EVE_POINT;
pub use jumping::JUMPING_POINT;
pub use jumping::JUMPING_SINGULARITY;
