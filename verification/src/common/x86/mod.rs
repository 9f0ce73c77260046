pub mod acpi;
pub mod gdt;
pub mod idt;
pub mod memory;
