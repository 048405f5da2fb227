[package]
name = "inputlagscope"
version = "0.1.0"
edition = "2021"
publish = false

[dependencies]
anyhow = "1"
crossbeam-channel = "0.5"
hidapi = { version = "2", default-features = false, features = ["linux-native-basic-udev"] }
libloading = "0.8"
parking_lot = "0.12"
serde = { version = "1", features = ["derive"] }
serde_json = "1"
serialport = { version = "4", default-features = false }
windows-sys = { version = "0.59", features = ["Win32_Foundation", "Win32_UI_Input", "Win32_Devices_HumanInterfaceDevice", "Win32_Storage_FileSystem", "Win32_System_Threading", "Win32_System_IO", "Win32_Devices_DeviceAndDriverInstallation", "Win32_Devices_Properties", "Win32_System_Registry", "Win32_System_SystemInformation", "Win32_System_Console", "Win32_Security"] }
