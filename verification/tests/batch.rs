use hekla::batch::{apply_ops, Batch, BatchError, BatchStep, EntityOp};
use hekla::schema::{EntityDef, EntityOpKind, FieldKind, FieldMeta};

fn entities() -> Vec<EntityDef> {
    vec![EntityDef {
        name: "rows".to_owned(),
        key: "id".to_owned(),
        fields: vec![
            ("id".to_owned(), FieldMeta::plain(FieldKind::I64)),
            ("n".to_owned(), FieldMeta::plain(FieldKind::I64)),
        ],
        indexes: Vec::new(),
    }]
}

fn put(entity: &str, row: &str) -> EntityOp {
    EntityOp { entity: entity.to_owned(), kind: EntityOpKind::Put(row.to_owned()) }
}

#[test]
fn a_batch_runs_every_selecting_arm_in_order_and_then_commits() {
    let entities = entities();
    let mut batch = Batch::new(2, 17);
    let mut ran: Vec<(usize, usize)> = Vec::new();
    let mut statements: usize = 0;
    let committed = loop {
        match batch.step() {
            BatchStep::Select { event } => {
                // The first event is selected by two arms, the second by none.
                batch.selected(&vec![event == 0, false, event == 0]);
            }
            BatchStep::Run { event, arm } => {
                ran.push((event, arm));
                let ops = vec![put("rows", "{\"id\":1,\"n\":2}")];
                statements += batch.ran(&entities, &ops).ok().unwrap().len();
            }
            BatchStep::Commit(statement) => break statement,
        }
    };
    assert_eq!(ran, vec![(0, 0), (0, 2)]);
    assert_eq!(statements, 2);
    assert!(committed.sql.contains("_hekla_checkpoint"));
}

#[test]
fn an_operation_on_an_undeclared_entity_ends_the_batch() {
    match apply_ops(&entities(), &vec![put("nope", "{}")]) {
        Err(err) => {
            assert!(matches!(&err, BatchError::Undeclared));
            assert_eq!(err.message(), "op references an entity the projector didn't declare");
        }
        Ok(_) => panic!("there is no such entity"),
    }
}

#[test]
fn an_operation_that_does_not_fit_names_its_entity() {
    let ops = vec![put("rows", "{\"id\":1}"), put("rows", "{\"id\":1,\"n\":\"x\"}")];
    match apply_ops(&entities(), &ops) {
        Err(err) => assert!(
            err.message().starts_with("applying an op to entity `rows`: column `n`: "),
            "{}",
            err.message()
        ),
        Ok(_) => panic!("a text is no integer"),
    }
}
