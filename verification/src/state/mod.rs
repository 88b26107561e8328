pub mod editor;
pub mod main_menu;
pub mod playing;
pub mod results;
pub mod song_select;
