//! The crate-wide error type and the HTTP status code each variant maps to.

use vstd::prelude::*;

verus! {

/// Every way an operation of this crate (or of the HTTP layer around it)
/// can fail. Variants carry the underlying error's text where there is one.
#[derive(Debug, Clone)]
pub enum ShopError {
    AlreadyExistsError,
    BcryptError(String),
    ConnectionError(String),
    DieselError(String),
    InvalidInput,
    JWTError(String),
    NoPermission(String),
    NotEnoughInStockError,
    NotFoundError(String),
    SerdeJsonError(String),
    ToStringError(String),
    ValidationErrors(String),
    ParseError(String),
}

/// The HTTP status code of each error variant.
pub open spec fn spec_status_code(e: &ShopError) -> u16 {
    match e {
        ShopError::AlreadyExistsError => 208,
        ShopError::NotFoundError(_) => 404,
        ShopError::ConnectionError(_) => 408,
        ShopError::InvalidInput => 400,
        ShopError::NoPermission(_) => 403,
        ShopError::SerdeJsonError(_) => 400,
        ShopError::DieselError(_) => 500,
        ShopError::BcryptError(_) => 500,
        ShopError::ToStringError(_) => 400,
        ShopError::JWTError(_) => 500,
        ShopError::ValidationErrors(_) => 500,
        ShopError::NotEnoughInStockError => 400,
        ShopError::ParseError(_) => 400,
    }
}

impl ShopError {
    /// The numeric HTTP status code this error is answered with.
    pub fn status_code(&self) -> (r: u16)
        ensures
            r == spec_status_code(self),
    {
        match self {
            ShopError::AlreadyExistsError => 208,
            ShopError::NotFoundError(_) => 404,
            ShopError::ConnectionError(_) => 408,
            ShopError::InvalidInput => 400,
            ShopError::NoPermission(_) => 403,
            ShopError::SerdeJsonError(_) => 400,
            ShopError::DieselError(_) => 500,
            ShopError::BcryptError(_) => 500,
            ShopError::ToStringError(_) => 400,
            ShopError::JWTError(_) => 500,
            ShopError::ValidationErrors(_) => 500,
            ShopError::NotEnoughInStockError => 400,
            ShopError::ParseError(_) => 400,
        }
    }
}

} // verus!
