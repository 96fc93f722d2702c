[package]
name = "forensic_vfs_engine"
version = "0.1.0"
edition = "2021"
publish = false

[dependencies]
forensic-vfs = "=0.7.2"
forensic-vfs-resolver = "=0.3.2"
state-history-forensic = "=0.2.2"
apm-partition-core = "=0.6.2"
ewf = { version = "=0.4.10", features = ["vfs"] }
ntfs-core = { version = "=0.9.5", features = ["vfs"] }
ext4fs-core = { version = "=0.2.8", features = ["vfs"] }
xfs-core = { version = "=0.1.6", features = ["vfs"] }
iso9660-forensic = { version = "=0.7.6", features = ["vfs"] }
apfs-core = { version = "=0.2.6", features = ["vfs"] }
hfsplus-forensic = { version = "=0.2.8", features = ["vfs"] }
fat-core = { version = "=0.1.4", features = ["vfs"] }
vhd-core = "=0.1.4"
qcow2-core = "=0.3.4"
vmdk-core = "=0.8.4"
vhdx-core = "=0.4.1"
dmg-core = "=0.1.5"
aff4 = "=0.2.6"
archive-core = "=0.1.6"
ad1-core = { version = "=0.1.2", features = ["vfs"] }
dar-core = "=0.7.1"
