pub mod flarg;
