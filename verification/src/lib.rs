//! A business-calendar engine: working days, trading sessions within a day,
//! and arithmetic that counts only business time.

pub mod business_time;
pub mod calendar;
pub mod civil;
pub mod clock;
pub mod day_set;
pub mod error;
pub mod extract;
pub mod intraday;
pub mod session;
pub mod workday;

pub use crate::calendar::CalendarState;
pub use crate::civil::{Date, Weekday};
pub use crate::clock::{DateTime, Duration, TimeBorder, TimeOfDay};
pub use crate::error::Error;
pub use crate::intraday::{BorderSymbol, IntradayState};
pub use crate::workday::Closed;
