use gml_bind::entity::Entity;
use gml_bind::entity::EntityMap;

#[derive(Copy, Clone, PartialEq, Eq, Hash, Debug)]
struct Ref(u32);

impl Entity for Ref {
    fn key_index(self) -> usize {
        self.0 as usize
    }

    fn new(index: usize) -> Self {
        Ref(index as u32)
    }

    fn index(self) -> usize {
        self.0 as usize
    }
}

#[test]
fn map() {
    let mut map: EntityMap<Ref, _> = EntityMap::new();
    let k1 = map.push(12);
    let k2 = map.push(34);

    assert_eq!(*map.get(k1).unwrap(), 12);
    assert_eq!(*map.get(k2).unwrap(), 34);
}

#[test]
fn map_len_and_missing() {
    let mut map: EntityMap<Ref, &str> = EntityMap::new();
    assert_eq!(map.len(), 0);
    let k = map.push("a");
    assert_eq!(map.len(), 1);
    assert_eq!(k.index(), 0);
    assert!(map.get(Ref(5)).is_none());
}

#[test]
fn map_swap() {
    let mut map: EntityMap<Ref, i32> = EntityMap::new();
    let k1 = map.push(1);
    let k2 = map.push(2);
    map.swap(k1, k2);
    assert_eq!(*map.get(k1).unwrap(), 2);
    assert_eq!(*map.get(k2).unwrap(), 1);
}

#[test]
fn map_with_capacity_and_resize() {
    let mut map: EntityMap<Ref, u64> = EntityMap::with_capacity(3);
    assert_eq!(map.len(), 3);
    assert_eq!(*map.get(Ref(2)).unwrap(), 0);
    map.resize(1);
    assert_eq!(map.len(), 1);
    map.resize(4);
    assert_eq!(map.len(), 4);
}

#[test]
fn map_ensure_grows() {
    let mut map: EntityMap<Ref, u64> = EntityMap::new();
    let k0 = map.push(9);
    {
        let slot = map.ensure(Ref(2));
        *slot = 7;
    }
    assert_eq!(map.len(), 3);
    assert_eq!(*map.get(Ref(2)).unwrap(), 7);
    assert_eq!(*map.get(k0).unwrap(), 9);
    {
        let slot = map.ensure(k0);
        *slot = 10;
    }
    assert_eq!(map.len(), 3);
    assert_eq!(*map.get(k0).unwrap(), 10);
}

#[test]
fn map_keys_iteration() {
    let mut map: EntityMap<Ref, i32> = EntityMap::new();
    map.push(5);
    map.push(6);
    map.push(7);
    let mut keys = map.keys();
    assert_eq!(keys.size_hint(), (3, Some(3)));
    assert_eq!(keys.next(), Some(Ref(0)));
    assert_eq!(keys.next_back(), Some(Ref(2)));
    assert_eq!(keys.size_hint(), (1, Some(1)));
    assert_eq!(keys.next(), Some(Ref(1)));
    assert_eq!(keys.next(), None);
    assert_eq!(keys.next_back(), None);
}
