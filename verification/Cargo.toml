[package]
name = "axvm"
version = "0.1.0"
edition = "2021"
publish = false

[dependencies]
bitmap-allocator = "*"
memory_addr = "*"
vm-fdt = "*"
fdt-parser = "*"
timer_list = "*"
ranges-ext = "*"
axvmconfig = "*"
axerrno = "*"
spin = "*"
