use zh_tokenizer::error::Error;
use zh_tokenizer::store::{create, get_by_name, get_client, save_all};

#[test]
fn new_client_is_empty() {
    let c = get_client();
    assert_eq!(c.file_count(), 0);
    assert_eq!(c.token_count(), 0);
}

#[test]
fn lookup_of_unknown_name_is_none() {
    let c = get_client();
    assert!(get_by_name(&c, "doc1").is_none());
}

#[test]
fn create_then_lookup() {
    let mut c = get_client();
    let f = create(&mut c, "doc1").unwrap();
    assert_eq!(f.name, "doc1");
    assert!(f.created_at > 0);
    let g = get_by_name(&c, "doc1").unwrap();
    assert_eq!(g.id, f.id);
    assert_eq!(g.name, "doc1");
    assert_eq!(g.created_at, f.created_at);
    assert!(get_by_name(&c, "doc2").is_none());
}

#[test]
fn second_create_is_refused() {
    let mut c = get_client();
    let f = create(&mut c, "doc1").unwrap();
    assert_eq!(create(&mut c, "doc1").err(), Some(Error::AlreadyExists));
    assert_eq!(c.file_count(), 1);
    assert_eq!(c.file_at(0).id, f.id);
}

#[test]
fn distinct_names_get_distinct_ids() {
    let mut c = get_client();
    let a = create(&mut c, "a").unwrap();
    let b = create(&mut c, "b").unwrap();
    assert_ne!(a.id, b.id);
    assert_eq!(c.file_count(), 2);
}

#[test]
fn empty_batch_writes_nothing() {
    let mut c = get_client();
    let f = create(&mut c, "doc1").unwrap();
    assert!(save_all(&mut c, Vec::new(), f.id).is_ok());
    assert_eq!(c.token_count(), 0);
}

#[test]
fn token_association() {
    let mut c = get_client();
    let f = create(&mut c, "doc1").unwrap();
    let names = vec!["北京".to_string(), "天安门".to_string()];
    assert!(save_all(&mut c, names, f.id).is_ok());
    assert_eq!(c.token_count(), 2);
    let t0 = c.token_at(0);
    let t1 = c.token_at(1);
    assert_eq!(t0.name, "北京");
    assert_eq!(t1.name, "天安门");
    assert_eq!(t0.file_id, f.id);
    assert_eq!(t1.file_id, f.id);
    assert!(t0.enabled && t1.enabled);
    assert_eq!(t0.created_at, t1.created_at);
    assert_ne!(t0.id, t1.id);
}

#[test]
fn batches_append() {
    let mut c = get_client();
    save_all(&mut c, vec!["我".to_string()], 7).unwrap();
    save_all(&mut c, vec!["北京".to_string(), "欢迎".to_string()], 9).unwrap();
    assert_eq!(c.token_count(), 3);
    assert_eq!(c.token_at(0).file_id, 7);
    assert_eq!(c.token_at(2).name, "欢迎");
    assert_eq!(c.token_at(2).file_id, 9);
}

#[test]
fn error_messages() {
    assert_eq!(Error::IoError.message(), "failed to read file");
    assert_eq!(Error::AlreadyExists.message(), "file already exists");
    assert_eq!(Error::StoreWriteError.message(), "failed to write to the store");
}
