pub mod input; pub mod ipc; pub mod client; pub mod command; pub mod config; pub mod dispatch; pub mod document; pub mod outer; pub mod paint; pub mod profile; pub mod render; pub mod runtime; pub mod server; pub mod session; pub mod status; pub mod terminal; pub mod text; pub mod viewer;
