use image_store::images::DirEntry;
use image_store::seeding::seed_plan;

fn file(name: &str) -> DirEntry {
    DirEntry { name: name.to_string(), is_file: true }
}

fn dir(name: &str) -> DirEntry {
    DirEntry { name: name.to_string(), is_file: false }
}

#[test]
fn seeding_plans_one_copy_per_regular_file() {
    let entries = vec![file("a.png"), file("b.txt"), dir("sub")];
    let plan = seed_plan("/res/images", "/data/Images", &entries);
    assert_eq!(plan.len(), 2);
    assert_eq!(plan[0].source, "/res/images/a.png");
    assert_eq!(plan[0].destination, "/data/Images/a.png");
    assert_eq!(plan[1].source, "/res/images/b.txt");
    assert_eq!(plan[1].destination, "/data/Images/b.txt");
}

#[test]
fn seeding_copies_every_file_not_only_images() {
    let entries = vec![file("b.txt")];
    let plan = seed_plan("/res/images", "/data/Images", &entries);
    assert_eq!(plan.len(), 1);
    assert_eq!(plan[0].destination, "/data/Images/b.txt");
}

#[test]
fn seeding_plan_of_empty_resource_dir_is_empty() {
    let entries: Vec<DirEntry> = Vec::new();
    let plan = seed_plan("/res/images", "/data/Images", &entries);
    assert!(plan.is_empty());
}

#[test]
fn seeding_twice_plans_the_same_copies() {
    let entries = vec![file("a.png"), dir("sub"), file("b.txt")];
    let first = seed_plan("/res/images", "/data/Images", &entries);
    let second = seed_plan("/res/images", "/data/Images", &entries);
    assert_eq!(first.len(), second.len());
    for (p, q) in first.iter().zip(second.iter()) {
        assert_eq!(p.source, q.source);
        assert_eq!(p.destination, q.destination);
    }
}
