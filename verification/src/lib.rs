//! A small event-sourced payments engine.
//!
//! Commands (deposits, withdrawals, disputes, resolutions and
//! chargebacks) run through a decision engine; accepted ones emit an
//! immutable event, update a per-client account projection and, for the
//! money-moving kinds, record a ledger entry used to settle later
//! disputes. Monetary values are fixed-point integers counted in
//! ten-thousandths of a unit, so `25_000` stands for `2.5`.

pub mod command_parser;
pub mod commands;
pub mod event_store;
pub mod events;
pub mod handlers;
pub mod projections;
pub mod runner;

pub use command_parser::CommandParser;
pub use commands::Command;
pub use event_store::EventStore;
pub use events::Event;
pub use handlers::CommandHandler;
pub use handlers::Outcome;
pub use handlers::Reason;
pub use projections::ClientAccount;
pub use projections::ClientAccountDto;
pub use projections::ProjectionStore;
pub use projections::Transaction;
pub use projections::TransactionType;
pub use runner::process_csv_reader;
pub use runner::render_accounts_csv;
