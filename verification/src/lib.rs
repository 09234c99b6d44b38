pub mod json;
pub mod text;
pub mod pairs;
pub mod web_url;
pub mod os_file;
pub mod os;
pub mod output;
pub mod device_file;
pub mod device_group;
pub mod device_group_entry;
pub mod jailbreak;
pub mod bypass;
pub mod adb_web;
pub mod adbweb_device;
pub mod adbweb_device_group;
pub mod adbweb_os;
