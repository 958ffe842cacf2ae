use version_ranges::lazy::{set_virtual, LifetimeVirtual};

#[test]
fn static_factory() {
    let mut name = String::from("Bokosmole");
    let mut virt = LifetimeVirtual::new(move || {
        println!("Factory for {} go brrr", name);
        name.push('!');
        name
    });
    assert_eq!(*virt.force(), "Bokosmole!");
}

#[test]
fn mutable_ref_factory() {
    let mut expensive_count: i32 = 0;
    {
        let mut virt_a = LifetimeVirtual::new(|| {
            expensive_count += 1;
            42
        });

        assert_eq!(*virt_a.force(), 42);
        assert_eq!(*virt_a.force(), 42);
        *virt_a.force_mut() = 32;
        assert_eq!(*virt_a.force(), 32);
    }
    assert_eq!(expensive_count, 1);
}

#[test]
fn set_virtual_eliminate_factory_call() {
    let mut expensive_count: i32 = 0;
    {
        let mut virt_a = LifetimeVirtual::new(|| {
            expensive_count += 1;
            42
        });

        set_virtual(&mut virt_a, 32);
        assert_eq!(*virt_a.force(), 32);
    }
    assert_eq!(expensive_count, 0);
}

struct Foo {
    pub bar: i32,
}

impl Foo {
    fn get(&self) -> i32 {
        self.bar
    }
    fn set(&mut self, new: i32) {
        self.bar = new;
    }
}

#[test]
fn implicit_deref() {
    let mut virt = LifetimeVirtual::new(|| Foo { bar: 1 });
    assert_eq!(virt.force().get(), 1);
    virt.force_mut().set(2);
    assert_eq!(virt.force().get(), 2);
}
