//! What a list shows and how it says it.

pub mod arrange;
pub mod browser_list;
pub mod controls;
pub mod deed;
pub mod file_list;
pub mod format;
pub mod list_screen;
pub mod menu;
pub mod row;
pub mod rows;
pub mod table;
pub mod task_manager;
pub mod variables;
