use mkdesktop::desktop::DesktopEntry;
use mkdesktop::lifecycle::{LifecycleError, Step, Workflow};
use mkdesktop::store::read_desktop_files;

/// A storage directory and a launcher menu held in memory.
struct Fake {
    files: Vec<(String, String)>,
    registered: Vec<String>,
    fail_register: bool,
    fail_deregister: bool,
    fail_write: bool,
    fail_remove: bool,
}

impl Fake {
    fn new() -> Fake {
        Fake {
            files: Vec::new(),
            registered: Vec::new(),
            fail_register: false,
            fail_deregister: false,
            fail_write: false,
            fail_remove: false,
        }
    }

    fn perform(&mut self, step: &Step) -> Result<(), String> {
        match step {
            Step::WriteFile { path, contents } => {
                if self.fail_write {
                    return Err("disk full".to_string());
                }
                self.files.retain(|(p, _)| p != path);
                self.files.push((path.clone(), contents.clone()));
                Ok(())
            }
            Step::Register { path } => {
                if self.fail_register {
                    return Err("no menu tool".to_string());
                }
                self.registered.push(path.clone());
                Ok(())
            }
            Step::Deregister { filename } => {
                if self.fail_deregister {
                    return Err("no menu tool".to_string());
                }
                self.registered.retain(|p| !p.ends_with(filename.as_str()));
                Ok(())
            }
            Step::RemoveFile { path } => {
                if self.fail_remove {
                    return Err("permission denied".to_string());
                }
                let before = self.files.len();
                self.files.retain(|(p, _)| p != path);
                if self.files.len() == before {
                    Err("no such file".to_string())
                } else {
                    Ok(())
                }
            }
        }
    }

    fn run(&mut self, mut w: Workflow) -> Result<(), LifecycleError> {
        loop {
            let step = match w.next_step() {
                Some(s) => s,
                None => return Ok(()),
            };
            let outcome = self.perform(step);
            if let Some(done) = w.advance(outcome) {
                return done;
            }
        }
    }

    fn entries(&self) -> Vec<DesktopEntry> {
        let texts: Vec<Option<String>> = self.files.iter().map(|(_, t)| Some(t.clone())).collect();
        read_desktop_files(&texts)
    }
}

const DIR: &str = "/data/mkdesktop";

#[test]
fn create_stores_exactly_one_file() {
    let mut fake = Fake::new();
    let foo = DesktopEntry::new("Foo", "", "", "/bin/foo", "", "");
    let w = Workflow::create_or_update(DIR, &foo, &None).ok().unwrap();
    assert!(fake.run(w).is_ok());
    assert_eq!(fake.files.len(), 1);
    assert_eq!(fake.files[0].0, "/data/mkdesktop/mkdesktop-Foo.desktop");
    let es = fake.entries();
    assert_eq!(es.len(), 1);
    assert_eq!(es[0].get_name(), "Foo");
    assert_eq!(fake.registered, vec!["/data/mkdesktop/mkdesktop-Foo.desktop".to_string()]);
}

#[test]
fn rename_removes_the_old_file() {
    let mut fake = Fake::new();
    let foo = DesktopEntry::new("Foo", "", "", "/bin/foo", "", "");
    let w = Workflow::create_or_update(DIR, &foo, &None).ok().unwrap();
    assert!(fake.run(w).is_ok());
    let bar = DesktopEntry::new("Bar", "", "", "/bin/foo", "", "");
    let w2 = Workflow::create_or_update(DIR, &bar, &Some(foo)).ok().unwrap();
    assert!(fake.run(w2).is_ok());
    assert_eq!(fake.files.len(), 1);
    assert_eq!(fake.files[0].0, "/data/mkdesktop/mkdesktop-Bar.desktop");
    assert!(!fake.files.iter().any(|(p, _)| p.ends_with("mkdesktop-Foo.desktop")));
    assert_eq!(fake.registered, vec!["/data/mkdesktop/mkdesktop-Bar.desktop".to_string()]);
    let es = fake.entries();
    assert_eq!(es.len(), 1);
    assert_eq!(es[0].get_name(), "Bar");
}

#[test]
fn update_under_same_filename_overwrites() {
    let mut fake = Fake::new();
    let foo = DesktopEntry::new("Foo", "", "", "/bin/foo", "", "");
    assert!(fake.run(Workflow::create_or_update(DIR, &foo, &None).ok().unwrap()).is_ok());
    let foo2 = DesktopEntry::new("Foo", "new tip", "", "/bin/foo2", "", "");
    let w = Workflow::create_or_update(DIR, &foo2, &Some(foo)).ok().unwrap();
    let mut steps = 0;
    let mut w = w;
    while let Some(s) = w.next_step() {
        let outcome = fake.perform(s);
        steps += 1;
        if w.advance(outcome).is_some() {
            break;
        }
    }
    assert_eq!(steps, 2);
    assert_eq!(fake.files.len(), 1);
    assert_eq!(fake.entries()[0].get_exec(), "/bin/foo2");
}

#[test]
fn delete_keeps_file_when_deregistration_fails() {
    let mut fake = Fake::new();
    let foo = DesktopEntry::new("Foo", "", "", "/bin/foo", "", "");
    assert!(fake.run(Workflow::create_or_update(DIR, &foo, &None).ok().unwrap()).is_ok());
    fake.fail_deregister = true;
    let r = fake.run(Workflow::delete(DIR, &foo));
    match r {
        Err(LifecycleError::Registration { cause }) => assert_eq!(cause, "no menu tool"),
        _ => panic!("expected a registration error"),
    }
    assert_eq!(fake.files.len(), 1);
}

#[test]
fn delete_removes_the_file() {
    let mut fake = Fake::new();
    let foo = DesktopEntry::new("Foo", "", "", "/bin/foo", "", "");
    assert!(fake.run(Workflow::create_or_update(DIR, &foo, &None).ok().unwrap()).is_ok());
    assert!(fake.run(Workflow::delete(DIR, &foo)).is_ok());
    assert!(fake.files.is_empty());
    assert!(fake.registered.is_empty());
}

#[test]
fn delete_of_missing_file_is_a_storage_error() {
    let mut fake = Fake::new();
    let foo = DesktopEntry::new("Foo", "", "", "/bin/foo", "", "");
    assert!(matches!(
        fake.run(Workflow::delete(DIR, &foo)),
        Err(LifecycleError::Storage { .. })
    ));
}

#[test]
fn empty_name_is_a_validation_error() {
    let e = DesktopEntry::new("", "", "", "/bin/foo", "", "");
    assert!(matches!(
        Workflow::create_or_update(DIR, &e, &None),
        Err(LifecycleError::Validation)
    ));
}

#[test]
fn failed_write_is_a_storage_error_and_registers_nothing() {
    let mut fake = Fake::new();
    fake.fail_write = true;
    let foo = DesktopEntry::new("Foo", "", "", "/bin/foo", "", "");
    match fake.run(Workflow::create_or_update(DIR, &foo, &None).ok().unwrap()) {
        Err(LifecycleError::Storage { cause }) => assert_eq!(cause, "disk full"),
        _ => panic!("expected a storage error"),
    }
    assert!(fake.registered.is_empty());
}

#[test]
fn failed_register_is_a_registration_error() {
    let mut fake = Fake::new();
    fake.fail_register = true;
    let foo = DesktopEntry::new("Foo", "", "", "/bin/foo", "", "");
    assert!(matches!(
        fake.run(Workflow::create_or_update(DIR, &foo, &None).ok().unwrap()),
        Err(LifecycleError::Registration { .. })
    ));
}

#[test]
fn failed_cleanup_after_rename_is_partial() {
    let mut fake = Fake::new();
    let foo = DesktopEntry::new("Foo", "", "", "/bin/foo", "", "");
    assert!(fake.run(Workflow::create_or_update(DIR, &foo, &None).ok().unwrap()).is_ok());
    fake.fail_remove = true;
    let bar = DesktopEntry::new("Bar", "", "", "/bin/foo", "", "");
    match fake.run(Workflow::create_or_update(DIR, &bar, &Some(foo)).ok().unwrap()) {
        Err(LifecycleError::Cleanup { cause }) => assert_eq!(cause, "permission denied"),
        _ => panic!("expected a cleanup error"),
    }
    assert_eq!(fake.files.len(), 2);
}

#[test]
fn steps_carry_paths_and_contents() {
    let foo = DesktopEntry::new("Foo", "", "", "/bin/foo", "", "");
    let w = Workflow::create_or_update(DIR, &foo, &None).ok().unwrap();
    match w.next_step() {
        Some(Step::WriteFile { path, contents }) => {
            assert_eq!(path, "/data/mkdesktop/mkdesktop-Foo.desktop");
            assert_eq!(contents, &foo.write());
        }
        _ => panic!("expected a write first"),
    }
    let d = Workflow::delete(DIR, &foo);
    match d.next_step() {
        Some(Step::Deregister { filename }) => assert_eq!(filename, "mkdesktop-Foo.desktop"),
        _ => panic!("expected deregistration first"),
    }
}
