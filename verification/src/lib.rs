pub mod actions;
pub mod address_book;
pub mod addressing_laws;
pub mod app_state;
pub mod arq;
pub mod arq_laws;
pub mod beacons;
pub mod client;
pub mod codec;
pub mod config;
pub mod dial;
pub mod events;
pub mod highlight;
pub mod history_paths;
pub mod identifiers;
pub mod keyboard_mode;
pub mod kiss;
pub mod kiss_monitor;
pub mod kiss_runner;
pub mod link;
pub mod list_laws;
pub mod log_view;
pub mod mailbox;
pub mod monitor_view;
pub mod netrom;
pub mod notify;
pub mod patterns;
pub mod port;
pub mod port_laws;
pub mod ports;
pub mod qrz;
pub mod raw_socket;
pub mod record_laws;
pub mod runner;
pub mod session_laws;
pub mod session_tab;
pub mod settings;
pub mod sorting;
pub mod startup;
pub mod telnet;
pub mod template_vars;
pub mod text;
pub mod text_laws;
pub mod transfer_laws;
pub mod transports;
pub mod window;
pub mod window_laws;
pub mod wire;
pub mod xid;
