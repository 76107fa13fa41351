//! The logic of Beckon, an assistant that a system-wide shortcut summons.
//!
//! - [`api`] and [`agent`]: what is asked of the model, what its event stream
//!   means, and the loop that runs tools until there is an answer.
//! - [`calendar`], [`requests`], [`listing`] and [`calendar_tools`]: the tools
//!   that read and change the user's calendars.
//! - [`ical`]: the iCalendar format of events, with what holds of it in
//!   [`ical_laws`], [`ical_changes`] and [`ical_order`].
//! - [`conversation`], [`spotlight`], [`fade`] and [`markdown`]: the entry window
//!   and what it shows.
//! - [`config`], [`settings_window`], [`keybinding`], [`screenshot`] and [`app`]:
//!   settings, shortcuts, screenshots and launching.
//! - [`json`], [`tools`], [`datetime`], [`pango`], [`order`], [`split`],
//!   [`ascii`] and [`text`]: what these are built on.
//!
//! What holds of all this is stated and proved in modules of their own:
//!
//! - [`agent_laws`], [`stream_laws`] and [`api_laws`]: a turn of the model, a whole
//!   conversation with it, and what a request says.
//! - [`event_laws`], [`reading_laws`], [`listing_laws`], [`calendar_laws`],
//!   [`request_laws`] and [`date_laws`]: events that are written, changed, read and
//!   listed.
//! - [`conversation_laws`], [`markdown_laws`] and [`fade_laws`]: what the window shows.
//! - [`settings_laws`], [`text_laws`] and [`view_laws`]: settings, and the rest.

pub mod agent;
pub mod agent_laws;
pub mod api;
pub mod api_laws;
pub mod app;
pub mod ascii;
pub mod calendar;
pub mod calendar_laws;
pub mod calendar_tools;
pub mod config;
pub mod conversation;
pub mod conversation_laws;
pub mod date_laws;
pub mod datetime;
pub mod event_laws;
pub mod fade;
pub mod fade_laws;
pub mod ical;
pub mod ical_changes;
pub mod ical_laws;
pub mod ical_order;
pub mod json;
pub mod keybinding;
pub mod listing;
pub mod listing_laws;
pub mod markdown;
pub mod markdown_laws;
pub mod order;
pub mod pango;
pub mod reading_laws;
pub mod request_laws;
pub mod requests;
pub mod screenshot;
pub mod settings_laws;
pub mod settings_window;
pub mod split;
pub mod spotlight;
pub mod stream_laws;
pub mod text;
pub mod text_laws;
pub mod tools;
pub mod view_laws;
