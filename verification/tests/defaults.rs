use nix_core::caps::Capabilities;
use nix_core::metrics::alerts::Alerts;
use nix_core::metrics::disk::{DiskCounters, DiskTotals};
use nix_core::metrics::memory::MemoryReading;
use nix_core::metrics::net::NetCounters;
use nix_core::metrics::power::PowerReading;
use nix_core::metrics::sensors::SensorReading;
use nix_core::metrics::Pipeline;
use nix_core::pkg::dpkg::DpkgBackend;
use nix_core::pkg::pacman::PacmanBackend;
use nix_core::pkg::rpm::{DnfBackend, ZypperBackend};
use nix_core::pkg::Backend;
use nix_core::protect::Guard;
use nix_core::reclaim::caches::AppCacheCategory;
use nix_core::reclaim::logs::JournalCategory;
use nix_core::reclaim::registry::{Category, Registry, TrashCategory};
use nix_core::reclaim::Session;
use nix_core::space::Manager;

#[test]
fn readings_start_from_nothing() {
    assert_eq!(PowerReading::default(), PowerReading { on_mains: None, batteries: Vec::new() });
    assert!(SensorReading::default().temperatures.is_empty());
    assert!(SensorReading::default().fans.is_empty());
    let memory = MemoryReading::default();
    assert_eq!((memory.total, memory.swap_free), (0, 0));
    assert_eq!(DiskTotals::default(), DiskTotals { read_per_second: 0, written_per_second: 0 });
    assert_eq!(DiskCounters::default(), DiskCounters { sectors_read: 0, sectors_written: 0 });
    assert_eq!(NetCounters::default(), NetCounters { rx_bytes: 0, tx_bytes: 0 });
}

#[test]
fn what_holds_state_starts_empty() {
    assert_eq!(Session::default().last_preview(), None);
    assert!(Registry::default().is_empty());
    assert!(!Pipeline::default().is_sampling());
    assert_eq!(format!("{:?}", Alerts::default()), format!("{:?}", Alerts::new()));
    let guard = Guard::default();
    assert!(guard.allows("/home/me/x"), "nothing of the user's is excluded");
    assert!(!guard.allows("/etc/passwd"), "and the built-in rules hold");
}

#[test]
fn categories_and_backends_start_as_their_constructors_make_them() {
    assert_eq!(TrashCategory::default().candidates(false).unwrap().len(), 0);
    assert_eq!(AppCacheCategory::default().id(), AppCacheCategory::new().id());
    assert_eq!(
        format!("{:?}", JournalCategory::default()),
        format!("{:?}", JournalCategory::new())
    );
    let nothing = Capabilities { found: Vec::new() };
    assert_eq!(DpkgBackend::default().manager(), Manager::Apt);
    assert_eq!(DnfBackend::default().manager(), Manager::Dnf);
    assert_eq!(ZypperBackend::default().manager(), Manager::Zypper);
    assert_eq!(PacmanBackend::default().manager(), Manager::Pacman);
    assert!(!DpkgBackend::default().available(&nothing));
}
