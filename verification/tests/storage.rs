use bevy_world::archetype::Archetype;
use bevy_world::column::Column;
use bevy_world::component::{ComponentDescriptor, Components, DropFn, Layout, StorageType};
use bevy_world::sparse_set::{SparseSet, SparseSets};
use bevy_world::tables::Tables;

#[test]
fn a_column_packs_its_rows() {
    let mut column = Column::new(2);
    column.push(&[1, 2]);
    column.push(&[3, 4]);
    column.push(&[5, 6]);
    assert_eq!(column.get(0), &[1, 2]);
    assert_eq!(column.get(1), &[3, 4]);
    assert_eq!(column.get(2), &[5, 6]);
    assert_eq!(column.replace(1, &[30, 40]), vec![3, 4]);
    assert_eq!(column.get(1), &[30, 40]);
    column.get_mut(2)[1] = 60;
    assert_eq!(column.get_mut(2).len(), 2);
    assert_eq!(column.get(2), &[5, 60]);
    // The last row takes the place of the row taken out.
    assert_eq!(column.swap_remove(0), vec![1, 2]);
    assert_eq!(column.get(0), &[5, 60]);
    assert_eq!(column.get(1), &[30, 40]);
    assert_eq!(column.swap_remove(1), vec![30, 40]);
    assert_eq!(column.swap_remove(0), vec![5, 60]);
    column.push(&[7, 8]);
    assert_eq!(column.get(0), &[7, 8]);
}

#[test]
fn a_column_of_empty_values_holds_rows() {
    let mut column = Column::new(0);
    column.push(&[]);
    column.push(&[]);
    assert_eq!(column.get(1), &[] as &[u8]);
    assert_eq!(column.replace(0, &[]), Vec::<u8>::new());
    assert_eq!(column.swap_remove(0), Vec::<u8>::new());
    assert_eq!(column.get(0), &[] as &[u8]);
}

#[test]
fn a_table_keeps_its_columns_in_step() {
    let mut table = Archetype::new(vec![2, 5], &vec![1, 2]);
    assert_eq!(table.len(), 0);
    assert_eq!(table.list(), &[2, 5]);
    assert!(table.has_components(&vec![2, 5]));
    assert!(!table.has_components(&vec![2]));
    assert!(!table.has_components(&vec![2, 6]));
    assert_eq!(table.position(2), (0, true));
    assert_eq!(table.position(5), (1, true));
    assert_eq!(table.position(0), (0, false));
    assert_eq!(table.position(3), (1, false));
    assert_eq!(table.position(9), (2, false));
    table.push_row(10, &vec![vec![1], vec![1, 1]]);
    table.push_row(11, &vec![vec![2], vec![2, 2]]);
    table.push_row(12, &vec![vec![3], vec![3, 3]]);
    assert_eq!(table.len(), 3);
    assert_eq!(table.slot(1), 11);
    assert_eq!(table.get(1, 2), &[3, 3]);
    assert_eq!(table.replace(0, 1, &[20]), vec![2]);
    table.get_mut(1, 1)[0] = 21;
    assert_eq!(table.take_row(0), vec![vec![1], vec![1, 1]]);
    assert_eq!(table.len(), 2);
    assert_eq!(table.slot(0), 12);
    assert_eq!(table.slot(1), 11);
    assert_eq!(table.get(0, 0), &[3]);
    assert_eq!(table.get(1, 0), &[3, 3]);
    assert_eq!(table.get(0, 1), &[20]);
    assert_eq!(table.get(1, 1), &[21, 2]);
}

fn registry(kinds: &[(StorageType, usize)]) -> Components {
    let mut components = Components::new();
    for (i, (kind, size)) in kinds.iter().enumerate() {
        components.register_dynamic(ComponentDescriptor::new_dynamic(
            format!("C{}", i),
            *kind,
            true,
            None,
            Layout::from_size_align(*size, 1).unwrap(),
            DropFn::Noop,
        ));
    }
    components
}

#[test]
fn tables_move_rows_and_return_what_leaves() {
    let reg = registry(&[(StorageType::Table, 1), (StorageType::Table, 2), (StorageType::Table, 0)]);
    let mut tables = Tables::new();
    assert_eq!(tables.get(3, 0), None);
    assert_eq!(tables.remove(&reg, 3, 0), None);
    tables.remove_row(&reg, 3);
    assert_eq!(tables.insert(&reg, 3, 1, &[1, 1]), None);
    assert_eq!(tables.insert(&reg, 3, 0, &[9]), None);
    assert_eq!(tables.insert(&reg, 4, 0, &[8]), None);
    assert_eq!(tables.insert(&reg, 4, 1, &[2, 2]), None);
    assert_eq!(tables.insert(&reg, 5, 2, &[]), None);
    assert_eq!(tables.insert(&reg, 3, 1, &[3, 3]), Some(vec![1, 1]));
    assert_eq!(tables.get(3, 0), Some(&[9u8][..]));
    assert_eq!(tables.get(3, 1), Some(&[3u8, 3][..]));
    assert_eq!(tables.get(4, 0), Some(&[8u8][..]));
    assert_eq!(tables.get(4, 1), Some(&[2u8, 2][..]));
    assert_eq!(tables.get(5, 2), Some(&[][..]));
    assert_eq!(tables.get(5, 0), None);
    tables.get_mut(4, 1).unwrap()[1] = 20;
    assert!(tables.get_mut(4, 2).is_none());
    assert!(tables.get_mut(9, 0).is_none());
    assert_eq!(tables.remove(&reg, 3, 0), Some(vec![9]));
    assert_eq!(tables.remove(&reg, 3, 0), None);
    assert_eq!(tables.get(3, 1), Some(&[3u8, 3][..]));
    assert_eq!(tables.get(4, 1), Some(&[2u8, 20][..]));
    assert_eq!(tables.remove(&reg, 3, 1), Some(vec![3, 3]));
    assert_eq!(tables.get(3, 1), None);
    tables.remove_row(&reg, 4);
    assert_eq!(tables.get(4, 0), None);
    assert_eq!(tables.get(4, 1), None);
    assert_eq!(tables.get(5, 2), Some(&[][..]));
}

#[test]
fn a_sparse_set_finds_values_by_slot() {
    let mut set = SparseSet::new(2);
    assert_eq!(set.get(4), None);
    assert_eq!(set.remove(4), None);
    assert_eq!(set.insert(4, &[4, 4]), None);
    assert_eq!(set.insert(1, &[1, 1]), None);
    assert_eq!(set.insert(7, &[7, 7]), None);
    assert_eq!(set.insert(1, &[10, 10]), Some(vec![1, 1]));
    set.get_mut(7).unwrap()[0] = 70;
    assert!(set.get_mut(2).is_none());
    assert!(set.get_mut(100).is_none());
    assert_eq!(set.remove(4), Some(vec![4, 4]));
    assert_eq!(set.get(4), None);
    assert_eq!(set.get(1), Some(&[10u8, 10][..]));
    assert_eq!(set.get(7), Some(&[70u8, 7][..]));
    assert_eq!(set.remove(7), Some(vec![70, 7]));
    assert_eq!(set.remove(1), Some(vec![10, 10]));
    assert_eq!(set.remove(1), None);
    assert_eq!(set.insert(4, &[5, 5]), None);
    assert_eq!(set.get(4), Some(&[5u8, 5][..]));
}

#[test]
fn sparse_sets_keep_components_apart() {
    let reg = registry(&[(StorageType::SparseSet, 1), (StorageType::Table, 4), (StorageType::SparseSet, 2)]);
    let mut sets = SparseSets::new();
    assert_eq!(sets.get(&reg, 0, 2), None);
    assert_eq!(sets.remove(&reg, 0, 2), None);
    assert!(sets.get_mut(&reg, 0, 2).is_none());
    assert_eq!(sets.insert(&reg, 0, 2, &[1, 2]), None);
    assert_eq!(sets.insert(&reg, 0, 0, &[3]), None);
    assert_eq!(sets.insert(&reg, 1, 0, &[4]), None);
    assert_eq!(sets.get(&reg, 0, 2), Some(&[1u8, 2][..]));
    assert_eq!(sets.get(&reg, 0, 0), Some(&[3u8][..]));
    assert_eq!(sets.get(&reg, 1, 0), Some(&[4u8][..]));
    assert_eq!(sets.get(&reg, 1, 2), None);
    assert_eq!(sets.get(&reg, 0, 1), None);
    sets.get_mut(&reg, 1, 0).unwrap()[0] = 40;
    assert_eq!(sets.remove(&reg, 0, 0), Some(vec![3]));
    assert_eq!(sets.get(&reg, 1, 0), Some(&[40u8][..]));
    assert_eq!(sets.get(&reg, 0, 2), Some(&[1u8, 2][..]));
    assert_eq!(sets.insert(&reg, 0, 2, &[5, 6]), Some(vec![1, 2]));
}
