use parseable::metrics::{volume_usage, DiskSpace};

fn disk(mount: &str, total: u64, available: u64) -> DiskSpace {
    DiskSpace { mount_point: mount.to_string(), total, available }
}

#[test]
fn longest_mount_point_holding_the_path() {
    let disks = vec![disk("/", 100, 40), disk("/data", 50, 10), disk("/data2", 70, 5)];
    assert_eq!(volume_usage(&disks, "/data/staging"), (Some(50), Some(10), Some(40)));
    assert_eq!(volume_usage(&disks, "/data2/x"), (Some(70), Some(5), Some(65)));
    assert_eq!(volume_usage(&disks, "/home"), (Some(100), Some(40), Some(60)));
}

#[test]
fn no_disk_holds_the_path() {
    let disks = vec![disk("/data", 50, 10)];
    assert_eq!(volume_usage(&disks, "relative/dir"), (None, None, None));
    assert_eq!(volume_usage(&vec![], "/x"), (None, None, None));
}

#[test]
fn equal_mount_points_take_the_later() {
    let disks = vec![disk("/data", 50, 10), disk("/data", 60, 20)];
    assert_eq!(volume_usage(&disks, "/data/x"), (Some(60), Some(20), Some(40)));
}
