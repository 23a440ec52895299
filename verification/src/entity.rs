//! Stored records.

pub mod social_credit_user;
