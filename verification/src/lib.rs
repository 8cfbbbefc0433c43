pub mod calendar;
pub mod cron_expression;
pub mod cron_field;
pub mod cron_lexer;
pub mod cron_parser;
pub mod cron_schedule;
pub mod errors;
pub mod hooks;
pub mod task;
pub mod identifier;
pub mod scheduler;
pub mod frames;
pub mod frame_builder;
pub mod cron_text;
