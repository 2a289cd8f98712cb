pub mod mongodb;
