pub mod commit;
pub mod prepare;
