//! Verified core of the airport dispatch service: order lifecycle rules,
//! generation timing, publication gates, safety checklists and the
//! overrun (schedule conflict) warning lifecycle.

pub mod text;
pub mod model;
pub mod idset;
pub mod generation;
pub mod overrun;
pub mod overrun_alerts;
pub mod ids;
pub mod overrun_service;
pub mod executor;
pub mod rules;
pub mod publication;
pub mod publication_resources;
pub mod batch_publication;
pub mod preparation;
pub mod checklist;
pub mod lifecycle;
pub mod crew;
pub mod equipment;
pub mod window;
pub mod window_crew;
pub mod window_candidates;
pub mod window_run;
pub mod auto_dispatch;
pub mod mobile_sync;
pub mod order_create;
pub mod assignment;
pub mod actions;
pub mod action_effects;
pub mod slots;
pub mod issues;
pub mod generation_requests;
pub mod validation;
pub mod flight_context;
pub mod eta_enrichment;
pub mod followup;
pub mod rebase;
pub mod workbench;
pub mod replan;
