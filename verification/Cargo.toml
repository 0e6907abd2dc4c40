[package]
name = "ejaan"
version = "0.1.0"
edition = "2021"
publish = false

[dependencies]
napi = "*"
napi-derive = "*"
objc2 = "*"
objc2-app-kit = { version = "*", features = ["NSSpellChecker"] }
objc2-foundation = { version = "*", features = ["NSString", "NSArray", "NSRange", "NSTextCheckingResult", "NSOrthography", "NSDictionary"] }
windows = { version = "*", features = ["Win32_Foundation", "Win32_Globalization", "Win32_System_Com"] }
