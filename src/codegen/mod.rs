//! Code generation: C, and C with NASM assembly for Linux on x86-64.
pub mod c;
pub mod generate_asm_str;
pub mod generate_c_runtime;
pub mod generate_c_write_str;
pub mod linux_x86_64;
pub mod memory;
pub mod copy_group;
pub mod nasm;
