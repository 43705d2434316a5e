//! Verified core of a scraper for NHL game information and game results.

pub mod decimal;
pub mod text;
pub mod calendar_date;
pub mod scrape;
pub mod gameinfo;
pub mod scrape_config;
pub mod command_line;
pub mod jobs;
pub mod report;
pub mod html;
pub mod timing;
