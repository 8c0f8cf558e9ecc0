//! Wire formats shared by the providers' clients.

pub mod s3;
