//! The `org.freedesktop.systemd1` D-Bus surface.
//!
//! What the D-Bus interfaces answer that upstream `systemctl --user` and other
//! systemd-aware tools speak. Connections are served by the caller.
//!
//! - [`object_path`] — names of objects and interfaces.
//! - [`manager_iface`] — `org.freedesktop.systemd1.Manager`.
//! - [`unit_iface`] — per-unit `org.freedesktop.systemd1.Unit`.
//! - [`service_iface`] — `org.freedesktop.systemd1.Service` for `.service`
//!   units.
//! - [`stub_ifaces`] — `Socket`/`Timer`/`Path`/`Target`/`Scope` placeholders so
//!   that `Properties.GetAll` doesn't error on systemctl.
//! - [`events`] — translates manager events into bus signals.

pub mod events;
pub mod manager_iface;
pub mod object_path;
pub mod service_iface;
pub mod stub_ifaces;
pub mod unit_iface;
