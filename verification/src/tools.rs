pub mod ast_printer;
