pub mod model;
pub mod svc;
