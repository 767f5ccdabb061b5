use kurtosis_core::enclave::{
    EnclaveApiContainerStatus, EnclaveContainersStatus, EnclaveError, EnclaveMode, EnclaveRegistry,
};
use kurtosis_core::ident::LookupError;
use kurtosis_core::partition::{NetworkState, PartitionError, PartitionTopology};
use kurtosis_core::service::{ServiceConfig, ServiceError, ServiceRegistry, ServiceStatus};
use kurtosis_core::engine::RunOptions;
use kurtosis_core::ident::prefix_candidates;
use kurtosis_core::uuid::{SHORTENED_UUID_LEN, UUID_LEN};

fn config(image: &[u8]) -> ServiceConfig {
    ServiceConfig {
        image: image.to_vec(),
        private_ports: Vec::new(),
        entrypoint_args: Vec::new(),
        cmd_args: Vec::new(),
        env_vars: Vec::new(),
    }
}

#[test]
fn add_service_mints_identity() {
    let mut reg = ServiceRegistry::new();
    let idx = reg.add_service(b"db".to_vec(), config(b"postgres")).expect("add");
    let rec = &reg.records[idx];
    assert_eq!(rec.uuid.len(), UUID_LEN);
    assert_eq!(rec.shortened_uuid.len(), SHORTENED_UUID_LEN);
    assert!(rec.uuid.starts_with(&rec.shortened_uuid));
    assert!(rec.live);
    assert_eq!(rec.status, ServiceStatus::Running);
}

#[test]
fn add_service_rejects_live_duplicate() {
    let mut reg = ServiceRegistry::new();
    reg.add_service(b"db".to_vec(), config(b"postgres")).expect("add");
    let r = reg.add_service(b"db".to_vec(), config(b"mysql"));
    assert_eq!(r, Err(ServiceError::NameAlreadyInUseError));
}

#[test]
fn add_services_partial_success() {
    // A mix of valid and name-colliding configs: the valid subset starts,
    // the rest fail per entry; never an all-or-nothing failure.
    let mut reg = ServiceRegistry::new();
    reg.add_service(b"taken".to_vec(), config(b"img")).expect("add");
    let batch = vec![
        (b"alpha".to_vec(), config(b"img-a")),
        (b"taken".to_vec(), config(b"img-b")),
        (b"beta".to_vec(), config(b"img-c")),
        (b"alpha".to_vec(), config(b"img-d")),
    ];
    let results = reg.add_services(batch);
    assert_eq!(results.len(), 4);
    assert_eq!(results[0].0, b"alpha".to_vec());
    assert!(results[0].1.is_ok());
    assert_eq!(results[1].1, Err(ServiceError::NameAlreadyInUseError));
    assert!(results[2].1.is_ok());
    assert_eq!(results[3].1, Err(ServiceError::NameAlreadyInUseError));
    // The valid subset is live.
    assert!(reg.find_live_by_name(&b"alpha".to_vec()).is_some());
    assert!(reg.find_live_by_name(&b"beta".to_vec()).is_some());
}

#[test]
fn remove_keeps_historical_identity() {
    let mut reg = ServiceRegistry::new();
    reg.add_service(b"db".to_vec(), config(b"postgres")).expect("add");
    let uuid = reg.remove_service(&b"db".to_vec()).expect("remove");
    assert!(reg.find_live_by_name(&b"db".to_vec()).is_none());
    // Historical identifiers stay retrievable.
    let all = reg.all_identifiers();
    assert_eq!(all.len(), 1);
    assert_eq!(all[0].0, uuid);
    assert_eq!(all[0].1, b"db".to_vec());
    // And the name can be reused.
    reg.add_service(b"db".to_vec(), config(b"postgres")).expect("re-add");
    assert_eq!(reg.all_identifiers().len(), 2);
}

#[test]
fn resolution_precedence_and_prefix() {
    let mut reg = ServiceRegistry::new();
    let idx = reg.add_service(b"one".to_vec(), config(b"img")).expect("add");
    let uuid = reg.records[idx].uuid.clone();
    let shortened = reg.records[idx].shortened_uuid.clone();
    // Full UUID, name, shortened UUID all resolve to the same service.
    let by_uuid = reg.get_services(&vec![uuid.clone()]);
    let by_name = reg.get_services(&vec![b"one".to_vec()]);
    let by_short = reg.get_services(&vec![shortened]);
    assert_eq!(by_uuid[0], Ok(idx));
    assert_eq!(by_name[0], Ok(idx));
    assert_eq!(by_short[0], Ok(idx));
    assert_eq!(
        reg.get_services(&vec![b"unknown".to_vec()])[0],
        Err(LookupError::NotFoundError)
    );
}

#[test]
fn ambiguous_prefix_fails_unique_prefix_resolves() {
    // UUIDs are minted from a counter, low hex digit first: the services
    // with counter values 0 and 16 both have UUIDs starting with '0', while
    // only the one with counter value 1 starts with '1'.
    let mut reg = ServiceRegistry::new();
    for i in 0..17u32 {
        let name = format!("svc-{}", i).into_bytes();
        reg.add_service(name, config(b"img")).expect("add");
    }
    let r = reg.get_services(&vec![b"0".to_vec()]);
    assert_eq!(r[0], Err(LookupError::AmbiguousIdentifierError));
    let r = reg.get_services(&vec![b"1".to_vec()]);
    assert_eq!(r[0], Ok(1));
}

#[test]
fn enclave_lifecycle() {
    let mut reg = EnclaveRegistry::new();
    let idx = reg
        .create_enclave(b"test-env".to_vec(), EnclaveMode::Test, 1700000000)
        .expect("create");
    {
        let rec = &reg.records[idx];
        assert!(rec.live);
        assert_eq!(rec.containers_status, EnclaveContainersStatus::Running);
        assert_eq!(rec.api_container_status, EnclaveApiContainerStatus::Running);
        assert_eq!(rec.mode, EnclaveMode::Test);
        assert_eq!(rec.creation_time, 1700000000);
    }
    // Duplicate live name rejected.
    assert_eq!(
        reg.create_enclave(b"test-env".to_vec(), EnclaveMode::Test, 0),
        Err(EnclaveError::NameAlreadyInUseError)
    );
    // Stop keeps identity, moves statuses.
    reg.stop_enclave(&b"test-env".to_vec()).expect("stop");
    assert!(reg.records[idx].live);
    assert_eq!(reg.records[idx].containers_status, EnclaveContainersStatus::Stopped);
    assert_eq!(
        reg.records[idx].api_container_status,
        EnclaveApiContainerStatus::Stopped
    );
    // Destroy severs the live association but keeps history.
    let uuid = reg.destroy_enclave(&b"test-env".to_vec()).expect("destroy");
    assert!(!reg.records[idx].live);
    let all = reg.all_identifiers();
    assert_eq!(all.len(), 1);
    assert_eq!(all[0].0, uuid);
    assert_eq!(
        reg.stop_enclave(&b"test-env".to_vec()),
        Err(LookupError::NotFoundError)
    );
}

#[test]
fn clean_removes_stopped_enclaves() {
    let mut reg = EnclaveRegistry::new();
    reg.create_enclave(b"a".to_vec(), EnclaveMode::Test, 1).expect("a");
    reg.create_enclave(b"b".to_vec(), EnclaveMode::Test, 2).expect("b");
    reg.create_enclave(b"c".to_vec(), EnclaveMode::Production, 3).expect("c");
    reg.stop_enclave(&b"b".to_vec()).expect("stop b");
    let removed = reg.clean(false);
    assert_eq!(removed.len(), 1);
    assert_eq!(removed[0].0, b"b".to_vec());
    assert_eq!(reg.live_indexes().len(), 2);
    let removed_all = reg.clean(true);
    assert_eq!(removed_all.len(), 2);
    assert!(reg.live_indexes().is_empty());
}

#[test]
fn repartition_is_atomic() {
    let mut reg = ServiceRegistry::new();
    reg.add_service(b"api".to_vec(), config(b"img")).expect("api");
    reg.add_service(b"db".to_vec(), config(b"img")).expect("db");
    let mut net = NetworkState::new();
    let good = PartitionTopology {
        partitions: vec![
            (b"front".to_vec(), vec![b"api".to_vec()]),
            (b"back".to_vec(), vec![b"db".to_vec()]),
        ],
        connections: vec![(b"front".to_vec(), b"back".to_vec(), 40)],
        default_packet_loss_percentage: 0,
    };
    net.repartition(&reg, good).expect("valid topology");
    assert_eq!(
        net.packet_loss_between(&b"front".to_vec(), &b"back".to_vec()),
        40
    );
    // Unlisted ordered pair falls back to the default rule.
    assert_eq!(
        net.packet_loss_between(&b"back".to_vec(), &b"front".to_vec()),
        0
    );
    // An invalid topology changes nothing.
    let bad = PartitionTopology {
        partitions: vec![(b"only".to_vec(), vec![b"api".to_vec()])],
        connections: Vec::new(),
        default_packet_loss_percentage: 0,
    };
    assert_eq!(
        net.repartition(&reg, bad),
        Err(PartitionError::ServiceUnassignedError)
    );
    assert_eq!(
        net.packet_loss_between(&b"front".to_vec(), &b"back".to_vec()),
        40
    );
}

#[test]
fn repartition_rejects_bad_topologies() {
    let mut reg = ServiceRegistry::new();
    reg.add_service(b"api".to_vec(), config(b"img")).expect("api");
    let mut net = NetworkState::new();
    let dup_names = PartitionTopology {
        partitions: vec![
            (b"p".to_vec(), vec![b"api".to_vec()]),
            (b"p".to_vec(), vec![]),
        ],
        connections: Vec::new(),
        default_packet_loss_percentage: 0,
    };
    assert_eq!(
        net.repartition(&reg, dup_names),
        Err(PartitionError::DuplicatePartitionNameError)
    );
    let ghost_service = PartitionTopology {
        partitions: vec![(b"p".to_vec(), vec![b"api".to_vec(), b"ghost".to_vec()])],
        connections: Vec::new(),
        default_packet_loss_percentage: 0,
    };
    assert_eq!(
        net.repartition(&reg, ghost_service),
        Err(PartitionError::ServiceNotLiveError)
    );
    let double_listed = PartitionTopology {
        partitions: vec![
            (b"p".to_vec(), vec![b"api".to_vec()]),
            (b"q".to_vec(), vec![b"api".to_vec()]),
        ],
        connections: Vec::new(),
        default_packet_loss_percentage: 0,
    };
    assert_eq!(
        net.repartition(&reg, double_listed),
        Err(PartitionError::ServiceMultiplyAssignedError)
    );
    let unknown_conn = PartitionTopology {
        partitions: vec![(b"p".to_vec(), vec![b"api".to_vec()])],
        connections: vec![(b"p".to_vec(), b"elsewhere".to_vec(), 10)],
        default_packet_loss_percentage: 0,
    };
    assert_eq!(
        net.repartition(&reg, unknown_conn),
        Err(PartitionError::UnknownPartitionError)
    );
    let out_of_range = PartitionTopology {
        partitions: vec![(b"p".to_vec(), vec![b"api".to_vec()])],
        connections: vec![(b"p".to_vec(), b"p".to_vec(), 101)],
        default_packet_loss_percentage: 0,
    };
    assert_eq!(
        net.repartition(&reg, out_of_range),
        Err(PartitionError::PacketLossOutOfRangeError)
    );
}

#[test]
fn run_script_inside_an_enclave() {
    let mut reg = EnclaveRegistry::new();
    reg.create_enclave(b"env-a".to_vec(), EnclaveMode::Test, 10).expect("a");
    reg.create_enclave(b"env-b".to_vec(), EnclaveMode::Test, 20).expect("b");
    let o = RunOptions { dry_run: false, parallelism: 4, no_instruction_caching: false };
    let out = reg
        .run_script_in_enclave(
            &b"env-a".to_vec(),
            &b"add db postgres\n".to_vec(),
            Vec::new(),
            b"run".to_vec(),
            &o,
        )
        .expect("enclave found");
    assert!(out.success);
    // The run touched only the named enclave's state.
    assert_eq!(reg.records[0].state.services.live_indexes().len(), 1);
    assert!(reg.records[1].state.services.live_indexes().is_empty());
    assert!(reg.records[0].state.last_run.is_some());
    assert!(
        reg.run_script_in_enclave(
            &b"missing".to_vec(),
            &b"add x y\n".to_vec(),
            Vec::new(),
            b"run".to_vec(),
            &o,
        )
        .is_err()
    );
}

#[test]
fn empty_identifier_list_fetches_all_live_services() {
    let mut reg = ServiceRegistry::new();
    reg.add_service(b"a".to_vec(), config(b"img")).expect("a");
    reg.add_service(b"b".to_vec(), config(b"img")).expect("b");
    reg.remove_service(&b"a".to_vec()).expect("rm a");
    let all = reg.get_services(&Vec::new());
    assert_eq!(all.len(), 1);
    assert_eq!(all[0], Ok(1));
}

#[test]
fn ambiguous_identifier_lists_candidates() {
    let mut reg = ServiceRegistry::new();
    for i in 0..17u32 {
        let name = format!("svc-{}", i).into_bytes();
        reg.add_service(name, config(b"img")).expect("add");
    }
    // "0" is a prefix of the UUIDs minted from counters 0 and 16.
    let candidates = prefix_candidates(&reg.records, &b"0".to_vec());
    assert_eq!(candidates, vec![0, 16]);
    // A removed service no longer counts as a candidate.
    let uuid0 = reg.records[0].uuid.clone();
    reg.remove_service(&uuid0).expect("rm");
    let candidates = prefix_candidates(&reg.records, &b"0".to_vec());
    assert_eq!(candidates, vec![16]);
}
