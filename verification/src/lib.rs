pub mod text;
pub mod file_entry;
pub mod sorting;
pub mod paths;
pub mod naming;
pub mod file_list;
pub mod menus;
pub mod trash;
pub mod theme;
pub mod tabs;
pub mod sidebar;
pub mod search;
pub mod assets;
pub mod presentation;
