pub mod html;
pub mod i18n;
pub mod rooms;
pub mod streaming_animation;
pub mod text;
pub mod thread_lifecycle;
pub mod timeline_state;
pub mod small_state;
pub mod space_tree;
pub mod space_lobby;
pub mod search;
pub mod threads_pane;
pub mod rooms_list;
pub mod room_info;
pub mod report_modal;
pub mod room_settings;
pub mod timeline_view;
pub mod welcome_screen;
pub mod rooms_sidebar;
pub mod timeline_updates;
pub mod message_content;
pub mod message_view;
pub mod subspace_entry;
