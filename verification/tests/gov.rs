use ledger_storage::backend::MemBackend;
use ledger_storage::engine::Storage;
use ledger_storage::gov::{
    get_counter_key, get_max_proposal_code_size_key, get_max_proposal_content_key,
    get_max_proposal_period_key, get_min_proposal_fund_key, get_min_proposal_grace_epoch_key,
    get_min_proposal_period_key, GovParams,
};
use ledger_storage::hash::Fnv64Hasher;
use ledger_storage::token::Amount;

fn fresh() -> Storage<MemBackend, Fnv64Hasher> {
    Storage::open(MemBackend::new(), Fnv64Hasher::new())
}

#[test]
fn builders_stay_in_the_gov_namespace() {
    for k in [
        get_min_proposal_fund_key(),
        get_max_proposal_code_size_key(),
        get_min_proposal_period_key(),
        get_max_proposal_period_key(),
        get_max_proposal_content_key(),
        get_min_proposal_grace_epoch_key(),
        get_counter_key(),
    ] {
        assert!(k.to_string().starts_with("gov/"));
        assert_eq!(k.len(), 2);
    }
}

#[test]
fn builders_are_pure() {
    assert_eq!(get_counter_key(), get_counter_key());
    assert_eq!(
        get_min_proposal_fund_key().to_string(),
        "gov/min-proposal-fund"
    );
}

#[test]
fn init_storage_writes_defaults_under_well_known_keys() {
    let mut s = fresh();
    let params = GovParams::default();
    params.init_storage(&mut s);
    s.commit().unwrap();
    assert_eq!(
        s.read::<Amount>(&get_min_proposal_fund_key()).unwrap(),
        Some(Amount::whole(500))
    );
    assert_eq!(
        s.read::<u64>(&get_max_proposal_period_key()).unwrap(),
        Some(27)
    );
    assert_eq!(
        s.read::<u64>(&get_min_proposal_period_key()).unwrap(),
        Some(3)
    );
    assert_eq!(
        s.read::<u64>(&get_max_proposal_code_size_key()).unwrap(),
        Some(300_000)
    );
    assert_eq!(
        s.read::<u64>(&get_max_proposal_content_key()).unwrap(),
        Some(10_000)
    );
    assert_eq!(
        s.read::<u64>(&get_min_proposal_grace_epoch_key()).unwrap(),
        Some(6)
    );
    assert_eq!(s.read::<u64>(&get_counter_key()).unwrap(), Some(0));
}

#[test]
fn init_storage_is_visible_before_commit() {
    let mut s = fresh();
    GovParams::default().init_storage(&mut s);
    assert_eq!(s.read::<u64>(&get_counter_key()).unwrap(), Some(0));
    assert_eq!(
        s.read::<Amount>(&get_min_proposal_fund_key()).unwrap(),
        Some(Amount::whole(500))
    );
}
