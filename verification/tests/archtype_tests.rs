use archtype::{
    Archtype, ArchtypeError, ArchtypeOps, Component, ComponentMeta, DestructorCall, FieldValue,
    Layout,
};

const POINT: u64 = 1;
const SPEED: u64 = 2;
const NAME: u64 = 3;
const MARK: u64 = 4;

struct Point {
    x: u32,
    y: u32,
}

struct Speed {
    v: u32,
}

impl Component for Point {
    fn type_identity() -> u64 {
        POINT
    }

    fn into_bytes(self) -> Vec<u8> {
        let mut bytes = self.x.to_le_bytes().to_vec();
        bytes.extend_from_slice(&self.y.to_le_bytes());
        bytes
    }
}

impl Component for Speed {
    fn type_identity() -> u64 {
        SPEED
    }

    fn into_bytes(self) -> Vec<u8> {
        self.v.to_le_bytes().to_vec()
    }
}

fn point_speed_layout() -> Layout {
    let mut layout = Layout::new();
    assert_eq!(layout.add_component_meta(ComponentMeta::new(POINT, 8, 4, false)), Ok(()));
    assert_eq!(layout.add_component_meta(ComponentMeta::new(SPEED, 4, 4, false)), Ok(()));
    layout
}

fn point(x: u32, y: u32) -> FieldValue {
    let mut bytes = x.to_le_bytes().to_vec();
    bytes.extend_from_slice(&y.to_le_bytes());
    FieldValue::new(POINT, bytes)
}

fn speed(v: u32) -> FieldValue {
    FieldValue::new(SPEED, v.to_le_bytes().to_vec())
}

fn calls_of(calls: &[DestructorCall], id: u64) -> usize {
    calls.iter().filter(|call| call.id == id).count()
}

#[test]
fn new_archetype_has_no_rows() {
    let archtype = Archtype::new(point_speed_layout(), 16).unwrap();
    assert_eq!(archtype.size(), 0);
    assert_eq!(archtype.capacity(), 16);
    assert_eq!(archtype.layout().len(), 2);
    assert_eq!(archtype.column(POINT), Ok(vec![]));
    assert_eq!(archtype.read(POINT, 0), Ok(None));
}

#[test]
fn new_without_columns_or_capacity_asks_for_no_memory() {
    let empty = Archtype::new(Layout::new(), usize::MAX).unwrap();
    assert_eq!(empty.size(), 0);
    assert_eq!(empty.capacity(), usize::MAX);

    let mut none = Archtype::new(point_speed_layout(), 0).unwrap();
    assert_eq!(none.capacity(), 0);
    assert_eq!(
        none.insert_row(vec![point(1, 2), speed(3)]),
        Err(ArchtypeError::CapacityExceeded)
    );
    assert_eq!(none.size(), 0);
}

#[test]
fn new_with_a_field_of_no_bytes() {
    let mut layout = Layout::new();
    assert_eq!(layout.add_component_meta(ComponentMeta::new(MARK, 0, 1, true)), Ok(()));
    let mut archtype = Archtype::new(layout, usize::MAX).unwrap();
    assert_eq!(archtype.insert_row(vec![FieldValue::new(MARK, vec![])]), Ok(0));
    assert_eq!(archtype.insert_row(vec![FieldValue::new(MARK, vec![])]), Ok(1));
    assert_eq!(archtype.size(), 2);
    assert_eq!(archtype.read(MARK, 1), Ok(Some(vec![])));
    assert_eq!(archtype.read(MARK, 2), Ok(None));
    let calls = archtype.teardown();
    assert_eq!(calls.len(), 2);
}

#[test]
fn new_fails_where_a_column_cannot_be_had() {
    let mut layout = Layout::new();
    assert_eq!(layout.add_component_meta(ComponentMeta::new(POINT, usize::MAX, 1, false)), Ok(()));
    assert_eq!(Archtype::new(layout, 2).err(), Some(ArchtypeError::AllocationFailed));

    let mut layout = Layout::new();
    assert_eq!(layout.add_component_meta(ComponentMeta::new(POINT, 8, 4, false)), Ok(()));
    assert_eq!(
        layout.add_component_meta(ComponentMeta::new(SPEED, usize::MAX / 2 + 1, 1, false)),
        Ok(())
    );
    assert_eq!(Archtype::new(layout, 1).err(), Some(ArchtypeError::AllocationFailed));
}

#[test]
fn insert_row_gives_consecutive_indices() {
    let mut archtype = Archtype::new(point_speed_layout(), 3).unwrap();
    assert_eq!(archtype.insert_row(vec![point(0, 0), speed(1)]), Ok(0));
    assert_eq!(archtype.size(), 1);
    assert_eq!(archtype.insert_row(vec![point(1, 1), speed(2)]), Ok(1));
    assert_eq!(archtype.size(), 2);
    assert_eq!(archtype.insert_row(vec![point(2, 2), speed(3)]), Ok(2));
    assert_eq!(archtype.size(), 3);
}

#[test]
fn insert_row_takes_the_values_in_any_order() {
    let mut archtype = Archtype::new(point_speed_layout(), 2).unwrap();
    assert_eq!(archtype.insert_row(vec![speed(9), point(7, 8)]), Ok(0));
    assert_eq!(archtype.read(POINT, 0), Ok(Some(vec![7, 0, 0, 0, 8, 0, 0, 0])));
    assert_eq!(archtype.read(SPEED, 0), Ok(Some(vec![9, 0, 0, 0])));
}

#[test]
fn read_gives_back_what_was_inserted() {
    let mut archtype = Archtype::new(point_speed_layout(), 4).unwrap();
    let rows: [(u32, u32, u32); 3] = [(1, 2, 3), (u32::MAX, 0, 0x0102_0304), (0, 0, 0)];
    for (at, (x, y, v)) in rows.iter().enumerate() {
        assert_eq!(archtype.insert_row(vec![point(*x, *y), speed(*v)]), Ok(at));
    }
    for (at, (x, y, v)) in rows.iter().enumerate() {
        assert_eq!(archtype.read(POINT, at), Ok(Some(point(*x, *y).bytes)));
        assert_eq!(archtype.read(SPEED, at), Ok(Some(speed(*v).bytes)));
    }
    assert_eq!(archtype.read(SPEED, 1), Ok(Some(vec![4, 3, 2, 1])));
    assert_eq!(archtype.read(POINT, 3), Ok(None));
    assert_eq!(archtype.read(NAME, 0), Err(ArchtypeError::ComponentNotInLayout));
    assert_eq!(archtype.column(NAME), Err(ArchtypeError::ComponentNotInLayout));
    assert_eq!(
        archtype.column(SPEED),
        Ok(vec![speed(3).bytes, speed(0x0102_0304).bytes, speed(0).bytes])
    );
}

#[test]
fn full_archetype_refuses_the_next_row() {
    for capacity in 0..5usize {
        let mut archtype = Archtype::new(point_speed_layout(), capacity).unwrap();
        for at in 0..capacity {
            assert_eq!(archtype.insert_row(vec![point(at as u32, 0), speed(at as u32)]), Ok(at));
        }
        let points = archtype.column(POINT).unwrap();
        let speeds = archtype.column(SPEED).unwrap();
        assert_eq!(
            archtype.insert_row(vec![point(99, 99), speed(99)]),
            Err(ArchtypeError::CapacityExceeded)
        );
        assert_eq!(archtype.size(), capacity);
        assert_eq!(archtype.column(POINT).unwrap(), points);
        assert_eq!(archtype.column(SPEED).unwrap(), speeds);
    }
}

#[test]
fn duplicate_in_a_row_is_refused() {
    let mut archtype = Archtype::new(point_speed_layout(), 2).unwrap();
    assert_eq!(archtype.insert_row(vec![point(1, 2), speed(3)]), Ok(0));
    assert_eq!(
        archtype.insert_row(vec![point(4, 5), point(6, 7)]),
        Err(ArchtypeError::DuplicateComponent)
    );
    assert_eq!(
        archtype.insert_row(vec![point(4, 5), speed(6), speed(7)]),
        Err(ArchtypeError::DuplicateComponent)
    );
    assert_eq!(archtype.size(), 1);
    assert_eq!(archtype.column(POINT), Ok(vec![point(1, 2).bytes]));
    assert_eq!(archtype.column(SPEED), Ok(vec![speed(3).bytes]));
}

#[test]
fn duplicate_is_reported_before_anything_else() {
    let mut archtype = Archtype::new(point_speed_layout(), 1).unwrap();
    assert_eq!(archtype.insert_row(vec![point(1, 2), speed(3)]), Ok(0));
    assert_eq!(
        archtype.insert_row(vec![point(4, 5), point(6, 7)]),
        Err(ArchtypeError::DuplicateComponent)
    );
    assert_eq!(
        archtype.insert_row(vec![FieldValue::new(NAME, vec![]), FieldValue::new(NAME, vec![])]),
        Err(ArchtypeError::DuplicateComponent)
    );
    assert_eq!(
        archtype.insert_row(vec![point(4, 5), FieldValue::new(NAME, vec![])]),
        Err(ArchtypeError::ComponentNotInLayout)
    );
    assert_eq!(archtype.insert_row(vec![point(4, 5)]), Err(ArchtypeError::MalformedRow));
    assert_eq!(archtype.size(), 1);
}

#[test]
fn undeclared_field_type_is_refused() {
    let mut archtype = Archtype::new(point_speed_layout(), 2).unwrap();
    assert_eq!(
        archtype.insert_row(vec![point(1, 2), speed(3), FieldValue::new(NAME, vec![1])]),
        Err(ArchtypeError::ComponentNotInLayout)
    );
    assert_eq!(
        archtype.insert_row(vec![FieldValue::new(NAME, vec![1])]),
        Err(ArchtypeError::ComponentNotInLayout)
    );
    assert_eq!(archtype.size(), 0);
}

#[test]
fn incomplete_or_wrongly_sized_row_is_refused() {
    let mut archtype = Archtype::new(point_speed_layout(), 2).unwrap();
    assert_eq!(archtype.insert_row(vec![]), Err(ArchtypeError::MalformedRow));
    assert_eq!(archtype.insert_row(vec![point(1, 2)]), Err(ArchtypeError::MalformedRow));
    assert_eq!(archtype.insert_row(vec![speed(3)]), Err(ArchtypeError::MalformedRow));
    assert_eq!(
        archtype.insert_row(vec![point(1, 2), FieldValue::new(SPEED, vec![1, 2, 3])]),
        Err(ArchtypeError::MalformedRow)
    );
    assert_eq!(
        archtype.insert_row(vec![FieldValue::new(POINT, vec![0; 9]), speed(3)]),
        Err(ArchtypeError::MalformedRow)
    );
    assert_eq!(archtype.size(), 0);
    assert_eq!(archtype.insert_row(vec![point(1, 2), speed(3)]), Ok(0));
}

#[test]
fn arrange_places_each_value_in_its_column() {
    let layout = point_speed_layout();
    assert_eq!(layout.arrange(&vec![point(1, 2), speed(3)]), Ok(vec![0, 1]));
    assert_eq!(layout.arrange(&vec![speed(3), point(1, 2)]), Ok(vec![1, 0]));
    assert_eq!(layout.arrange(&vec![speed(3)]), Err(ArchtypeError::MalformedRow));
    assert_eq!(
        layout.arrange(&vec![speed(3), speed(4)]),
        Err(ArchtypeError::DuplicateComponent)
    );
    assert_eq!(
        layout.arrange(&vec![FieldValue::new(NAME, vec![])]),
        Err(ArchtypeError::ComponentNotInLayout)
    );
    assert_eq!(Layout::new().arrange(&vec![]), Ok(vec![]));
}

#[test]
fn add_components_of_one_value() {
    let mut layout = Layout::new();
    assert_eq!(layout.add_component::<Speed>(), Ok(()));
    let mut archtype = Archtype::new(layout, 2).unwrap();
    assert_eq!(archtype.add_components(Speed { v: 5 }), Ok(0));
    assert_eq!(archtype.add_components(Speed { v: 6 }), Ok(1));
    assert_eq!(archtype.add_components(Speed { v: 7 }), Err(ArchtypeError::CapacityExceeded));
    assert_eq!(archtype.add_components(Point { x: 1, y: 1 }), Err(ArchtypeError::ComponentNotInLayout));
    assert_eq!(archtype.column(SPEED), Ok(vec![vec![5, 0, 0, 0], vec![6, 0, 0, 0]]));
}

#[test]
fn add_components_of_one_value_needs_a_whole_row() {
    let mut layout = Layout::new();
    assert_eq!(layout.add_component::<Point>(), Ok(()));
    assert_eq!(layout.add_component::<Speed>(), Ok(()));
    let mut archtype = Archtype::new(layout, 2).unwrap();
    assert_eq!(archtype.add_components(Speed { v: 5 }), Err(ArchtypeError::MalformedRow));
    assert_eq!(archtype.size(), 0);
}

#[test]
fn add_components_of_two_values() {
    let mut layout = Layout::new();
    assert_eq!(layout.add_component::<Point>(), Ok(()));
    assert_eq!(layout.add_component::<Speed>(), Ok(()));
    let mut archtype = Archtype::new(layout, 2).unwrap();
    assert_eq!(archtype.add_components((Speed { v: 5 }, Point { x: 1, y: 2 })), Ok(0));
    assert_eq!(
        archtype.add_components((Speed { v: 5 }, Speed { v: 6 })),
        Err(ArchtypeError::DuplicateComponent)
    );
    assert_eq!(archtype.size(), 1);
    assert_eq!(archtype.read(POINT, 0), Ok(Some(vec![1, 0, 0, 0, 2, 0, 0, 0])));
    assert_eq!(archtype.read(SPEED, 0), Ok(Some(vec![5, 0, 0, 0])));
}

#[test]
fn field_value_of_erases_the_type() {
    let value = FieldValue::of(Point { x: 3, y: 4 });
    assert_eq!(value.id, POINT);
    assert_eq!(value.bytes, vec![3, 0, 0, 0, 4, 0, 0, 0]);
}

#[test]
fn teardown_hands_out_each_value_with_a_destructor_once() {
    for rows in 0..6usize {
        let mut layout = Layout::new();
        assert_eq!(layout.add_component_meta(ComponentMeta::new(NAME, 2, 1, true)), Ok(()));
        assert_eq!(layout.add_component_meta(ComponentMeta::new(SPEED, 4, 4, false)), Ok(()));
        assert_eq!(layout.add_component_meta(ComponentMeta::new(MARK, 1, 1, true)), Ok(()));
        let mut archtype = Archtype::new(layout, 8).unwrap();
        for at in 0..rows {
            let row = vec![
                FieldValue::new(NAME, vec![at as u8, 0xAA]),
                speed(at as u32),
                FieldValue::new(MARK, vec![0x10 + at as u8]),
            ];
            assert_eq!(archtype.insert_row(row), Ok(at));
        }
        let calls = archtype.teardown();
        assert_eq!(calls_of(&calls, NAME), rows);
        assert_eq!(calls_of(&calls, MARK), rows);
        assert_eq!(calls_of(&calls, SPEED), 0);
        assert_eq!(calls.len(), 2 * rows);
        for at in 0..rows {
            assert_eq!(calls[at].id, NAME);
            assert_eq!(calls[at].row, at);
            assert_eq!(calls[at].bytes, vec![at as u8, 0xAA]);
            assert_eq!(calls[rows + at].id, MARK);
            assert_eq!(calls[rows + at].row, at);
            assert_eq!(calls[rows + at].bytes, vec![0x10 + at as u8]);
        }
    }
}

#[test]
fn teardown_counts_only_the_rows_that_were_accepted() {
    let mut layout = Layout::new();
    assert_eq!(layout.add_component_meta(ComponentMeta::new(NAME, 1, 1, true)), Ok(()));
    let mut archtype = Archtype::new(layout, 2).unwrap();
    let mut counter = 0;
    assert_eq!(archtype.insert_row(vec![FieldValue::new(NAME, vec![1])]), Ok(0));
    assert_eq!(
        archtype.insert_row(vec![FieldValue::new(NAME, vec![1, 2])]),
        Err(ArchtypeError::MalformedRow)
    );
    assert_eq!(archtype.insert_row(vec![FieldValue::new(NAME, vec![2])]), Ok(1));
    assert_eq!(
        archtype.insert_row(vec![FieldValue::new(NAME, vec![3])]),
        Err(ArchtypeError::CapacityExceeded)
    );
    for call in archtype.teardown() {
        assert_eq!(call.id, NAME);
        counter += 1;
    }
    assert_eq!(counter, 2);
}

#[test]
fn teardown_without_destructors_hands_out_nothing() {
    let mut archtype = Archtype::new(point_speed_layout(), 2).unwrap();
    assert_eq!(archtype.insert_row(vec![point(1, 2), speed(3)]), Ok(0));
    assert!(archtype.teardown().is_empty());
}
