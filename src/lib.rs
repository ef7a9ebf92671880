pub mod subscription;
pub mod outbox;
pub mod idempotency;
pub mod newsletter;
pub mod routes;
