//! Extraction of typing-practice records from scraped ranking-page markup.

pub mod typeracerdata;
