#[derive(Copy, Clone)]
struct CopiableValue {
    value: i32,
}

#[test]
fn copy() {
    let x = CopiableValue { value: 10 };
    let mut y = x;
    y.value += 1;
    assert_ne!(x.value, y.value)
}

struct MovableValue {
    value: i32,
}

#[test]
fn test_move() {
    let x = MovableValue { value: 10 };
    let mut y = x;
    y.value += 1;
}

#[test]
fn move_and_borrowing() {
    let x = MovableValue { value: 10 };
    let ref_x1 = &x;
    let ref_x2 = &*ref_x1;
}

struct Pair {
    s1: String,
    s2: String,
}

#[test]
fn partially_moved() {
    let x = Pair {
        s1: String::from("a"),
        s2: String::from("a"),
    };
    drop(x.s1);
}

// A type with `Drop` cannot be partially moved.
struct Guarded {
    s: String,
}

impl Drop for Guarded {
    fn drop(&mut self) {}
}

#[test]
fn partially_moved_drop() {
    let x = Guarded {
        s: String::from("a"),
    };
}

#[test]
fn values_match() {
    {
        let mut x = String::from("test");

        // The place is matched and not moved.
        match x {
            ref mut y => *y = String::from("test1"),
        }
        assert_eq!(x, "test1");
    }

    {
        let x = String::from("test");

        // The value is moved.
        match x {
            y => y,
        };
    }

    {
        let mut x = String::from("test");
        {
            let ref_x = &mut x;
            match ref_x {
                y => *y = String::from("test1"),
            }
        }
        assert_eq!(x, "test1");
    }

    {
        let mut x = String::from("test");
        {
            let mut ref_x = &mut x;
            match ref_x {
                ref mut y => **y = String::from("test1"),
            }
            let ref_x = ref_x;
        }
        assert_eq!(x, "test1");
    }
}

#[test]
fn rvalue_in_lvalue_context() {
    let x = &10;
    assert_eq!(*x, 10);
}
