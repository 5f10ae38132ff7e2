[package]
name = "axtask"
version = "0.1.0"
edition = "2021"
publish = false

[dependencies]
axconfig = "=0.2.2-preview.2"
axhal = "=0.2.2-preview.6"
axsched = "*"
cfg-if = "1"
kernel_guard = "0.1"
lazyinit = "*"
log = "0.4"
memory_addr = "0.4"
percpu = "0.2"
scheduler = "*"
spinlock = "*"
