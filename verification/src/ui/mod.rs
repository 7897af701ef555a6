pub mod attendance_table;
pub mod modals;
pub mod toasts;
pub mod top_bar;
pub mod action_bar;
