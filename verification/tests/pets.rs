use homeworks::pets::{Cat, Dog, Pet};

#[test]
fn test_cat_new() {
    let cat = Cat::new("Gav", 1);
    assert_eq!(cat.name(), "Gav");
    assert_eq!(cat.age, 1);
}

#[test]
fn test_cat_clone() {
    let cat1 = Cat::new("Gav", 1);
    let cat2 = cat1.clone();
    assert_eq!(cat1.name, cat2.name);
    assert_eq!(cat1.age, cat2.age);
}

#[test]
fn test_cat_name() {
    let cat = Cat::new("Gav", 3);
    assert_eq!(cat.name(), "Gav");
}

#[test]
fn test_cat_increment_age() {
    let mut cat = Cat::new("Gav", 1);
    cat.increment_age();
    assert_eq!(cat.age, 2);
}

#[test]
fn test_cat_display() {
    let cat = Cat::new("Gav", 1);
    assert_eq!(cat.to_string(), "Cat: Gav - 1 years old");
}

#[test]
fn cat_display_with_large_age() {
    let cat = Cat::new("Tom", 4294967295);
    assert_eq!(cat.to_string(), "Cat: Tom - 4294967295 years old");
    let kitten = Cat::new("", 0);
    assert_eq!(kitten.to_string(), "Cat:  - 0 years old");
}

#[test]
fn test_cat_into_pet() {
    let cat = Cat::new("Gav", 1);
    let pet: Pet = cat.into();
    if let Pet::Cat(c) = pet {
        assert_eq!(c.name(), "Gav");
        assert_eq!(c.age, 1);
    } else {
        panic!("Expected Pet::Cat, but got {pet:?}");
    }
}

#[test]
fn test_try_cat_into_pet() {
    let pet = Pet::Cat(Cat::new("Gav", 1));

    let cat = Cat::try_from(pet);

    if let Ok(cat) = cat {
        assert_eq!(cat.name, "Gav");
        assert_eq!(cat.age, 1);
    } else {
        panic!("Expected Pet::Cat, but got {cat:?}");
    }
}

#[test]
fn try_dog_into_cat_is_refused() {
    let pet = Pet::Dog(Dog {});
    assert!(Cat::try_from(pet).is_err());
}

#[test]
fn test_pet_into_cat() {
    let pet = Pet::Cat(Cat::new("Gav", 1));
    let cat: Option<Cat> = pet.into();
    if let Some(c) = cat {
        assert_eq!(c.name(), "Gav");
        assert_eq!(c.age, 1);
    } else {
        panic!("Expected Some(Cat), but got None");
    }
}

#[test]
#[should_panic(expected = "Expected Some(Cat), but got None")]
fn test_try_dog_into_cat() {
    let dog = Dog {};
    let pet = Pet::Dog(dog);
    let cat: Option<Cat> = pet.into();
    if cat.is_some() {
        panic!("Unexpected cast to Cat");
    } else {
        panic!("Expected Some(Cat), but got None");
    }
}

#[test]
fn test_cat_add() {
    let cat1 = Cat::new("Gav", 1);
    let cat2 = cat1 + 2;
    assert_eq!(cat2.age, 3);
}

#[test]
fn test_cat_add_assign() {
    let mut cat = Cat::new("Gav", 1);
    cat += 2;
    assert_eq!(cat.age, 3);
}

#[test]
fn cat_add_assign_wraps_past_the_top() {
    let mut cat = Cat::new("Gav", u32::MAX);
    cat += 2;
    assert_eq!(cat.age, 1);
    assert_eq!(cat.name(), "Gav");
}
