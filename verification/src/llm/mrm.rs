//! Who may call which provider now: roles, slots, requests per minute and
//! health, under one set of settings.

pub mod manager;
pub mod route;
pub mod rpm;
pub mod state;
