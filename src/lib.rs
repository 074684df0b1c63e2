//! Multi-tenant container stack orchestration: compose normalization,
//! deployment planning with health-gated rollback, tenancy checks and
//! metrics retention, with their behaviour stated and proved.

pub mod error;
pub mod text;
pub mod outside;
pub mod assoc;
pub mod runtime;
pub mod compose;
pub mod order;
pub mod deploy;
pub mod containers;
pub mod stack;
pub mod metrics;
pub mod team;
pub mod resource;
pub mod api;
pub mod auth;
pub mod snapshot;
pub mod lifecycle;
pub mod bridge;
