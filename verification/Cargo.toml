[package]
name = "flexaudio"
version = "0.1.0"
edition = "2021"
publish = false

[dependencies]
pipewire = "=0.10.1"
rubato = "=3.0.0"
tract-onnx = "=0.23.7"
napi = { version = "=2.16.17", default-features = false, features = ["napi6"] }
napi-derive = "=2.16.13"
windows = { version = "=0.54.0", features = ["implement", "Win32_Foundation", "Win32_Media_Audio", "Win32_Media_KernelStreaming", "Win32_Media_Multimedia", "Win32_System_Com", "Win32_System_Com_StructuredStorage", "Win32_System_Threading", "Win32_System_SystemInformation", "Win32_System_Variant", "Win32_Devices_FunctionDiscovery", "Win32_UI_Shell_PropertiesSystem", "Wdk_System_SystemServices"] }
objc2 = "=0.6.5"
block2 = "=0.6.2"
objc2-foundation = "=0.3.2"
objc2-core-foundation = "=0.3.2"
objc2-core-audio = "=0.3.2"
objc2-core-audio-types = "=0.3.2"
