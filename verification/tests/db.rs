use jepa_dual::db::{PerceptionDB, PredictionDB, VectorDb};
use jepa_dual::ids::new_id;
use jepa_dual::ranking::rank_scores;

#[derive(Debug, Clone, PartialEq)]
struct Perception {
    id: u128,
    vector: Vec<f64>,
    source_tiles: Vec<String>,
    room_id: String,
    timestamp: u64,
}

#[derive(Debug, Clone, PartialEq)]
struct Prediction {
    id: u128,
    vector: Vec<f64>,
    predicted_value: f64,
    confidence: f64,
    room_id: String,
    timestamp: u64,
}

fn make_perception(v: Vec<f64>) -> Perception {
    Perception {
        id: new_id(),
        vector: v,
        source_tiles: vec!["t1".into()],
        room_id: "r1".into(),
        timestamp: 0,
    }
}

fn make_prediction(v: Vec<f64>) -> Prediction {
    Prediction {
        id: new_id(),
        vector: v,
        predicted_value: 1.0,
        confidence: 1.0,
        room_id: "r1".into(),
        timestamp: 0,
    }
}

fn cosine(a: &[f64], b: &[f64]) -> f64 {
    let dot: f64 = a.iter().zip(b.iter()).map(|(x, y)| x * y).sum();
    let ma = a.iter().map(|x| x * x).sum::<f64>().sqrt();
    let mb = b.iter().map(|x| x * x).sum::<f64>().sqrt();
    if ma < 1e-12 || mb < 1e-12 {
        return 0.0;
    }
    dot / (ma * mb)
}

fn score_bits<'a>(query: &[f64], vectors: impl Iterator<Item = &'a Vec<f64>>) -> Vec<u64> {
    vectors.map(|v| cosine(query, v).to_bits()).collect()
}

fn insert_p(db: &mut PerceptionDB<Perception>, p: Perception) {
    db.insert(p.id, p);
}

fn insert_q(db: &mut PredictionDB<Prediction>, q: Prediction) {
    db.insert(q.id, q);
}

#[test]
fn perception_db_insert_and_query() {
    let mut db: PerceptionDB<Perception> = VectorDb::new(3);
    let p1 = make_perception(vec![1.0, 0.0, 0.0]);
    let p2 = make_perception(vec![0.0, 1.0, 0.0]);
    let p3 = make_perception(vec![0.9, 0.1, 0.0]);
    insert_p(&mut db, p1.clone());
    insert_p(&mut db, p2.clone());
    insert_p(&mut db, p3.clone());
    let scores = score_bits(&[1.0, 0.0, 0.0], db.vectors().iter().map(|p| &p.vector));
    let results = db.nearest(&scores, 2);
    assert_eq!(results.len(), 2);
    assert_eq!(results[0].id, p1.id);
}

#[test]
fn perception_db_get_by_id() {
    let mut db: PerceptionDB<Perception> = VectorDb::new(2);
    let p = make_perception(vec![1.0, 2.0]);
    let id = p.id;
    insert_p(&mut db, p);
    assert_eq!(db.get(id).unwrap().vector, vec![1.0, 2.0]);
}

#[test]
fn prediction_db_insert_and_query() {
    let mut db: PredictionDB<Prediction> = VectorDb::new(3);
    let q1 = make_prediction(vec![1.0, 0.0, 0.0]);
    let q2 = make_prediction(vec![0.0, 0.0, 1.0]);
    insert_q(&mut db, q1.clone());
    insert_q(&mut db, q2.clone());
    let scores = score_bits(&[0.0, 0.0, 1.0], db.vectors().iter().map(|q| &q.vector));
    let results = db.nearest(&scores, 1);
    assert_eq!(results.len(), 1);
    assert_eq!(results[0].id, q2.id);
}

#[test]
fn prediction_db_get_by_id() {
    let mut db: PredictionDB<Prediction> = VectorDb::new(2);
    let q = make_prediction(vec![3.0, 4.0]);
    let id = q.id;
    insert_q(&mut db, q);
    assert_eq!(db.get(id).unwrap().vector, vec![3.0, 4.0]);
}

#[test]
fn empty_dbs() {
    let db: PredictionDB<Prediction> = VectorDb::new(3);
    let p = make_perception(vec![1.0, 0.0, 0.0]);
    let scores = score_bits(&p.vector, db.vectors().iter().map(|q| &q.vector));
    let results = rank_scores(&scores, 5);
    assert!(results.is_empty());
}

#[test]
fn single_entry() {
    let mut db: PredictionDB<Prediction> = VectorDb::new(2);
    let q = make_prediction(vec![1.0, 0.0]);
    insert_q(&mut db, q.clone());
    let p = make_perception(vec![1.0, 0.0]);
    let scores = score_bits(&p.vector, db.vectors().iter().map(|q| &q.vector));
    let results = rank_scores(&scores, 1);
    assert_eq!(results.len(), 1);
    assert_eq!(db.ids()[results[0]], q.id);
}

#[test]
fn get_missing_id_is_none() {
    let mut db: VectorDb<u32> = VectorDb::new(1);
    db.insert(7, 70);
    assert_eq!(db.get(8), None);
    assert_eq!(db.get(7), Some(&70));
}

#[test]
fn reinsert_same_id_finds_latest() {
    let mut db: VectorDb<u32> = VectorDb::new(1);
    db.insert(5, 1);
    db.insert(6, 2);
    db.insert(5, 3);
    assert_eq!(db.get(5), Some(&3));
    assert_eq!(db.get(6), Some(&2));
    assert_eq!(db.len(), 3);
    assert_eq!(db.vectors(), &vec![1, 2, 3]);
    assert_eq!(db.ids(), &vec![5, 6, 5]);
}

#[test]
fn new_store_is_empty() {
    let db: VectorDb<u32> = VectorDb::new(9);
    assert!(db.is_empty());
    assert_eq!(db.len(), 0);
    assert_eq!(db.dimension(), 9);
}

#[test]
fn nearest_keeps_insertion_order_on_ties() {
    let mut db: VectorDb<u32> = VectorDb::new(1);
    db.insert(1, 10);
    db.insert(2, 20);
    db.insert(3, 30);
    let scores = vec![0.5f64.to_bits(), 0.9f64.to_bits(), 0.5f64.to_bits()];
    let results = db.nearest(&scores, 3);
    assert_eq!(results, vec![&20, &10, &30]);
    let results = db.nearest(&scores, 10);
    assert_eq!(results.len(), 3);
}
