//! The terminal front end's logic: the display adapter (syntax trees to
//! wrapped, styled lines), LaTeX to Unicode, display widths, and the state
//! of the interactive components (agent overview, command menu, permission
//! dialog, help panel, task list, log) with their reactions to input.
pub mod input;
pub mod math;
pub mod width;
pub mod renderer;
pub mod activities;
pub mod agent;
pub mod agent_view;
pub mod app;
pub mod chat;
pub mod command_menu;
pub mod help;
pub mod image;
pub mod list;
pub mod markdown;
pub mod permission;
pub mod text_reader;
pub mod turn;
