use telegramfs::health::{AccountStatus, ArrayStatus, HealthTracker};
use telegramfs::manifest::{BlockLocation, ErasureChunkRef, StripeInfo};
use telegramfs::chunk::Chunk;
use telegramfs::crypto::derive_subkey;
use telegramfs::pipeline::seal_chunk;
use telegramfs::rebuild::{mark_rebuilt, stripe_step, RebuildManager, RebuildPhase, RebuildProgress, RebuildStep, ScrubResult};
use telegramfs::error::Error;
use telegramfs::stripe::StripeManager;

fn make_test_stripe_info(data_count: u8, parity_count: u8) -> StripeInfo {
    let total = data_count + parity_count;
    let mut info = StripeInfo::new(data_count, parity_count, 1024);

    for i in 0..total {
        info.blocks.push(BlockLocation {
            account_id: i,
            message_id: Some(100 + i as i32),
            block_index: i,
            uploaded_at: Some(1234567890),
        });
    }

    info
}

fn make_test_erasure_chunk_ref(id: &str, stripe: StripeInfo) -> ErasureChunkRef {
    ErasureChunkRef {
        id: id.to_string(),
        offset: 0,
        original_size: 1024,
        size: 1024,
        compressed: false,
        stripe,
        version: 1,
    }
}

#[test]
fn test_rebuild_manager_creation() {
    let manager = RebuildManager::new(3, 5, 5);
    assert!(manager.is_ok());
}

#[test]
fn test_rebuild_manager_with_batch_size() {
    let manager = RebuildManager::new(3, 5, 5).unwrap().with_batch_size(50);
    assert_eq!(manager.batch_size(), 50);
}

#[test]
fn test_rebuild_progress_new() {
    let progress = RebuildProgress::new(Some(2), 100);

    assert_eq!(progress.account_id, Some(2));
    assert_eq!(progress.total_stripes, 100);
    assert_eq!(progress.processed_stripes, 0);
    assert_eq!(progress.successful_stripes, 0);
    assert_eq!(progress.failed_stripes, 0);
    assert_eq!(progress.phase, RebuildPhase::Starting);
}

#[test]
fn progress_percent_at_zero_half_and_full() {
    let mut progress = RebuildProgress::new(None, 100);

    assert_eq!(progress.progress_percent(), 0);

    progress.processed_stripes = 50;
    assert_eq!(progress.progress_percent(), 50);

    progress.processed_stripes = 100;
    assert_eq!(progress.progress_percent(), 100);
}

#[test]
fn progress_of_empty_run_is_complete() {
    let progress = RebuildProgress::new(None, 0);
    assert_eq!(progress.progress_percent(), 100);
}

#[test]
fn test_stripes_needing_repair() {
    let manager = RebuildManager::new(3, 5, 5).unwrap();

    let mut stripe1 = make_test_stripe_info(3, 2);
    stripe1.blocks[2].message_id = None;

    let stripe2 = make_test_stripe_info(3, 2);

    let mut stripe3 = make_test_stripe_info(3, 2);
    stripe3.blocks[2].message_id = None;

    let stripes = vec![
        make_test_erasure_chunk_ref("chunk1", stripe1),
        make_test_erasure_chunk_ref("chunk2", stripe2),
        make_test_erasure_chunk_ref("chunk3", stripe3),
    ];

    let needing_repair = manager.stripes_needing_repair(&stripes, 2);
    assert_eq!(needing_repair.len(), 2);
    assert_eq!(needing_repair[0].id, "chunk1");
    assert_eq!(needing_repair[1].id, "chunk3");

    let needing_repair = manager.stripes_needing_repair(&stripes, 0);
    assert_eq!(needing_repair.len(), 0);
}

#[test]
fn test_scrub_result() {
    let result = ScrubResult {
        stripe_id: "test_stripe".to_string(),
        valid: true,
        verified_blocks: 5,
        missing_blocks: 0,
        error: None,
    };

    assert!(result.valid);
    assert_eq!(result.verified_blocks, 5);
    assert_eq!(result.missing_blocks, 0);
    assert!(result.error.is_none());
}

#[test]
fn test_rebuild_phase_transitions() {
    let mut progress = RebuildProgress::new(Some(0), 100);

    assert_eq!(progress.phase, RebuildPhase::Starting);

    progress.phase = RebuildPhase::Scanning;
    assert_eq!(progress.phase, RebuildPhase::Scanning);

    progress.phase = RebuildPhase::Processing;
    assert_eq!(progress.phase, RebuildPhase::Processing);

    progress.phase = RebuildPhase::Uploading;
    assert_eq!(progress.phase, RebuildPhase::Uploading);

    progress.phase = RebuildPhase::Completed;
    assert_eq!(progress.phase, RebuildPhase::Completed);
}

#[test]
fn progress_counts_outcomes_and_rounds_down() {
    let mut progress = RebuildProgress::new(Some(1), 3);
    progress.record(true);
    assert_eq!(progress.progress_percent(), 33);
    progress.record(false);
    assert_eq!(progress.processed_stripes, 2);
    assert_eq!(progress.successful_stripes, 1);
    assert_eq!(progress.failed_stripes, 1);
    assert_eq!(progress.progress_percent(), 66);
}

#[test]
fn rebuild_restores_lost_block_and_second_rebuild_finds_nothing() {
    let stripes = StripeManager::new(3, 4, 4).unwrap();
    let data = b"rebuild me from the other three accounts";
    let stripe = stripes.create_stripe("c".to_string(), data, 1).unwrap();
    let lost = stripe.block_for_account(2).unwrap().0;
    let info = stripes.to_stripe_info(&stripe, &[(0, 10), (1, 11), (2, 12), (3, 13)]);
    let mut entry = make_test_erasure_chunk_ref("c", info);
    entry.stripe.blocks[lost as usize].message_id = None;

    let manager = RebuildManager::new(3, 4, 4).unwrap();
    let todo = manager.stripes_needing_repair(std::slice::from_ref(&entry), 2);
    assert_eq!(todo.len(), 1);

    let available: Vec<(u8, Vec<u8>)> = (0..4u8)
        .filter(|b| *b != lost)
        .map(|b| (b, stripe.blocks[b as usize].clone()))
        .collect();
    let rebuilt = manager.rebuild_block(&available, lost, data.len()).unwrap();
    assert_eq!(rebuilt, stripe.blocks[lost as usize]);

    mark_rebuilt(&mut entry.stripe, lost as usize, 99, 5);
    assert_eq!(entry.stripe.blocks[lost as usize].message_id, Some(99));
    assert!(manager.stripes_needing_repair(std::slice::from_ref(&entry), 2).is_empty());
    assert!(manager.stripes_needing_repair(std::slice::from_ref(&entry), 2).is_empty());
}

#[test]
fn test_can_rebuild() {
    let manager = RebuildManager::new(3, 5, 5).unwrap();
    assert!(manager.can_rebuild());
}

#[test]
fn test_pool_status() {
    let manager = RebuildManager::new(3, 5, 5).unwrap();
    assert_eq!(manager.pool_status(), ArrayStatus::Healthy);
}

#[test]
fn test_rebuild_manager_health_tracker_access() {
    let manager = RebuildManager::new(3, 5, 5).unwrap();
    let health = manager.health_tracker();
    assert_eq!(health.healthy_count(), 5);
}

#[test]
fn health_degrades_then_excludes_failing_account() {
    let mut h = HealthTracker::new(4, 3, 3);
    h.record_failure(1);
    assert_eq!(h.account_status(1), AccountStatus::Degraded);
    h.record_success(1);
    assert_eq!(h.account_status(1), AccountStatus::Healthy);
    for _ in 0..3 {
        h.record_failure(2);
    }
    assert_eq!(h.account_status(2), AccountStatus::Unavailable);
    assert_eq!(h.serving_count(), 3);
    assert!(h.can_operate());
    assert_eq!(h.array_status(), ArrayStatus::Degraded);
    h.set_status(3, AccountStatus::Unavailable);
    assert!(!h.can_operate());
    assert_eq!(h.array_status(), ArrayStatus::Failed);
    assert_eq!(h.account_status(200), AccountStatus::Unavailable);
}

#[test]
fn raid5_account_loss_read_and_rebuild() {
    let stripes = StripeManager::new(3, 4, 4).unwrap();
    let mut manager = RebuildManager::new(3, 4, 4).unwrap();
    let data: Vec<u8> = (0..10 * 1024 * 1024u32).map(|i| (i.wrapping_mul(31) ^ (i >> 9)) as u8).collect();
    let chunk_size = 1024 * 1024;
    let mut refs = Vec::new();
    let mut blocks = Vec::new();
    for (i, piece) in data.chunks(chunk_size).enumerate() {
        let stripe = stripes.create_stripe(format!("c{}", i), piece, i as u64).unwrap();
        let ids: Vec<(u8, i32)> = (0..4u8).map(|b| (b, (i * 4 + b as usize) as i32)).collect();
        let info = stripes.to_stripe_info(&stripe, &ids);
        refs.push(make_test_erasure_chunk_ref(&format!("c{}", i), info));
        blocks.push(stripe.blocks);
    }
    // account 2 goes away: its blocks are lost
    manager.health_tracker_mut().set_status(2, AccountStatus::Unavailable);
    for r in refs.iter_mut() {
        for b in r.stripe.blocks.iter_mut() {
            if b.account_id == 2 {
                b.message_id = None;
            }
        }
    }
    assert_eq!(manager.pool_status(), ArrayStatus::Degraded);
    // reads route around the unavailable account
    let mut read_back = Vec::new();
    for (r, bl) in refs.iter().zip(blocks.iter()) {
        let picks = manager.rebuild_sources(&r.stripe, 2, &[2]).unwrap();
        let available: Vec<(u8, Vec<u8>)> =
            picks.iter().map(|&p| (r.stripe.blocks[p].block_index, bl[r.stripe.blocks[p].block_index as usize].clone())).collect();
        read_back.extend(stripes.reconstruct(&available, chunk_size).unwrap());
    }
    assert_eq!(read_back, data);
    // rebuild account 2
    manager.start_rebuild(2);
    assert_eq!(manager.health_tracker().account_status(2), AccountStatus::Rebuilding);
    let todo: Vec<usize> = {
        let affected = manager.affected_stripes(&refs, 2);
        assert_eq!(affected.len(), refs.len());
        (0..refs.len()).collect()
    };
    let mut progress = RebuildProgress::new(Some(2), todo.len());
    for i in todo {
        let target = telegramfs::rebuild::block_on(&refs[i].stripe, 2).unwrap();
        let picks = manager.rebuild_sources(&refs[i].stripe, 2, &[2]).unwrap();
        let available: Vec<(u8, Vec<u8>)> = picks
            .iter()
            .map(|&p| (refs[i].stripe.blocks[p].block_index, blocks[i][refs[i].stripe.blocks[p].block_index as usize].clone()))
            .collect();
        let index = refs[i].stripe.blocks[target].block_index;
        let rebuilt = manager.rebuild_block(&available, index, chunk_size).unwrap();
        assert_eq!(rebuilt, blocks[i][index as usize]);
        mark_rebuilt(&mut refs[i].stripe, target, 1000 + i as i32, 0);
        progress.record(true);
    }
    assert_eq!(manager.finish_rebuild(2, &progress), Ok(()));
    assert_eq!(manager.health_tracker().account_status(2), AccountStatus::Healthy);
    for r in &refs {
        assert_eq!(r.stripe.blocks.iter().filter(|b| b.message_id.is_some()).count(), 4);
    }
    assert!(manager.stripes_needing_repair(&refs, 2).is_empty());
}

#[test]
fn failed_rebuild_leaves_account_degraded() {
    let mut manager = RebuildManager::new(2, 3, 3).unwrap();
    manager.start_rebuild(1);
    let mut progress = RebuildProgress::new(Some(1), 2);
    progress.record(true);
    progress.record(false);
    assert_eq!(manager.finish_rebuild(1, &progress), Err(Error::RebuildFailed { account: 1, failed: 1 }));
    assert_eq!(manager.health_tracker().account_status(1), AccountStatus::Degraded);
}

#[test]
fn rebuild_sources_reports_shortfall() {
    let manager = RebuildManager::new(3, 5, 5).unwrap();
    let mut info = make_test_stripe_info(3, 2);
    info.blocks[0].message_id = None;
    info.blocks[1].message_id = None;
    assert_eq!(manager.rebuild_sources(&info, 2, &[]), Err(Error::StripeUnrecoverable { available: 2, required: 3 }));
    assert_eq!(manager.rebuild_sources(&info, 4, &[]), Err(Error::StripeUnrecoverable { available: 2, required: 3 }));
    let info = make_test_stripe_info(3, 2);
    assert_eq!(manager.rebuild_sources(&info, 0, &[1]), Ok(vec![2, 3, 4]));
}

#[test]
fn scrub_verdicts() {
    let stripes = StripeManager::new(2, 3, 3).unwrap();
    let manager = RebuildManager::new(2, 3, 3).unwrap();
    let key = derive_subkey(&[5u8; 32], &[6u8; 32], b"tgcryptfs-chunk-v1:s");
    let chunk = Chunk::new(b"scrub me".to_vec(), 0);
    let (blob, compressed) = seal_chunk(&chunk, &key, 1024);
    let stripe = stripes.create_stripe(chunk.info.id.clone(), &blob, 0).unwrap();
    let good = vec![(0u8, stripe.blocks[0].clone()), (2u8, stripe.blocks[2].clone())];
    let ok = manager.scrub_verdict(chunk.id(), &good, 1, blob.len(), &key, compressed);
    assert!(ok.valid);
    assert_eq!((ok.verified_blocks, ok.missing_blocks), (2, 1));
    let short = manager.scrub_verdict(chunk.id(), &good[..1], 2, blob.len(), &key, compressed);
    assert!(!short.valid);
    assert_eq!(short.error, Some(Error::StripeUnrecoverable { available: 1, required: 2 }));
    let other = Chunk::new(b"another".to_vec(), 0);
    let bad = manager.scrub_verdict(other.id(), &good, 1, blob.len(), &key, compressed);
    assert_eq!(bad.error, Some(Error::ChunkHashMismatch));
}

#[test]
fn next_source_tries_further_blocks_after_failures() {
    let manager = RebuildManager::new(3, 5, 5).unwrap();
    let info = make_test_stripe_info(3, 2);
    // rebuilding account 0: blocks 1..=4 are usable
    assert_eq!(manager.next_source(&info, 0, &[], &[], 0), Ok(Some(1)));
    // block 1 failed to download: try block 2
    assert_eq!(manager.next_source(&info, 0, &[], &[1], 0), Ok(Some(2)));
    assert_eq!(manager.next_source(&info, 0, &[], &[1, 2, 3], 2), Ok(Some(4)));
    assert_eq!(manager.next_source(&info, 0, &[], &[1, 2, 3, 4], 2), Err(Error::StripeUnrecoverable { available: 2, required: 3 }));
    assert_eq!(manager.next_source(&info, 0, &[], &[1, 2, 3], 3), Ok(None));
    // unavailable accounts are routed around
    assert_eq!(manager.next_source(&info, 0, &[1, 2], &[], 0), Ok(Some(3)));
}

#[test]
fn stripe_step_skips_readable_blocks() {
    let mut info = make_test_stripe_info(3, 2);
    assert_eq!(stripe_step(&info, 2, true), RebuildStep::Skip);
    assert_eq!(stripe_step(&info, 2, false), RebuildStep::Rebuild(2));
    info.blocks[2].message_id = None;
    assert_eq!(stripe_step(&info, 2, true), RebuildStep::Rebuild(2));
    assert_eq!(stripe_step(&info, 9, true), RebuildStep::NoBlock);
    // after the block is rebuilt and reads back, a second rebuild does nothing
    mark_rebuilt(&mut info, 2, 77, 0);
    assert_eq!(stripe_step(&info, 2, true), RebuildStep::Skip);
}
