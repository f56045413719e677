pub mod get_info;
pub mod make_credential;
pub mod get_assertion;
