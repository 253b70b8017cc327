use core_flasher::drives::DriveInfo;
use core_flasher::engine::{
    check_target, eta, flash, percent, speed, verify_written, DeviceLocks, FlashError, FlashIo,
    FlashProgress, Phase, CHUNK_SIZE,
};
use core_flasher::engine::{verify_step, write_step, VerifyStep, WriteStep};

const MIB: usize = 1024 * 1024;

/// An image and a device held in memory, with a write counter, a clock that
/// advances 100 ms per reading and an optional cancellation after some writes.
struct MemoryJob {
    image: Vec<u8>,
    image_pos: usize,
    device: Vec<u8>,
    device_pos: usize,
    writes: usize,
    bytes_written: usize,
    cancel_after_writes: Option<usize>,
    clock: u64,
    seen: Vec<FlashProgress>,
}

impl MemoryJob {
    fn new(image: Vec<u8>, device_len: usize) -> MemoryJob {
        MemoryJob {
            image,
            image_pos: 0,
            device: vec![0u8; device_len],
            device_pos: 0,
            writes: 0,
            bytes_written: 0,
            cancel_after_writes: None,
            clock: 0,
            seen: Vec::new(),
        }
    }
}

impl FlashIo for MemoryJob {
    fn prepare_device(&mut self) -> Option<String> {
        None
    }

    fn open_for_write(&mut self) -> Result<(), String> {
        self.image_pos = 0;
        self.device_pos = 0;
        Ok(())
    }

    fn read_image(&mut self, max: usize) -> Result<Vec<u8>, String> {
        let end = usize::min(self.image.len(), self.image_pos + max);
        let chunk = self.image[self.image_pos..end].to_vec();
        self.image_pos = end;
        Ok(chunk)
    }

    fn write_device(&mut self, data: &[u8]) -> Result<(), String> {
        if self.device_pos + data.len() > self.device.len() {
            return Err("no space left on device".to_string());
        }
        self.device[self.device_pos..self.device_pos + data.len()].copy_from_slice(data);
        self.device_pos += data.len();
        self.writes += 1;
        self.bytes_written += data.len();
        Ok(())
    }

    fn finish_write(&mut self) -> Result<(), String> {
        Ok(())
    }

    fn open_for_verify(&mut self) -> Result<(), String> {
        self.image_pos = 0;
        self.device_pos = 0;
        Ok(())
    }

    fn read_device(&mut self, len: usize) -> Result<Vec<u8>, String> {
        let end = usize::min(self.device.len(), self.device_pos + len);
        let chunk = self.device[self.device_pos..end].to_vec();
        self.device_pos = end;
        Ok(chunk)
    }

    fn cancel_requested(&mut self) -> bool {
        match self.cancel_after_writes {
            Some(n) => self.writes >= n,
            None => false,
        }
    }

    fn now_ms(&mut self) -> u64 {
        self.clock += 100;
        self.clock
    }

    fn emit(&mut self, progress: &FlashProgress) {
        self.seen.push(progress.clone());
    }
}

fn usb_drive() -> DriveInfo {
    DriveInfo {
        device: "/dev/sdb".to_string(),
        name: "USB Stick".to_string(),
        size: 10 * MIB as u64,
        size_human: "10.5 MB".to_string(),
        removable: true,
        is_system: false,
    }
}

fn test_image(len: usize) -> Vec<u8> {
    (0..len).map(|i| (i * 31 % 251) as u8).collect()
}

fn writing_counts(events: &[FlashProgress]) -> Vec<u64> {
    events.iter().filter(|p| p.phase == Phase::Writing).map(|p| p.bytes_written).collect()
}

fn terminal_count(events: &[FlashProgress]) -> usize {
    events.iter().filter(|p| p.phase == Phase::Done || p.phase == Phase::Error).count()
}

#[test]
fn system_drive_is_refused_without_writes() {
    let mut job = MemoryJob::new(test_image(MIB), MIB);
    let mut target = usb_drive();
    target.is_system = true;
    let out = flash(&mut job, &target, MIB as u64, false);
    assert_eq!(out.result, Err(FlashError::SafetyViolation));
    assert_eq!(job.writes, 0);
    assert_eq!(out.events.len(), 1);
    assert_eq!(out.events[0].phase, Phase::Error);
}

#[test]
fn non_removable_and_denylisted_drives_are_refused() {
    let mut job = MemoryJob::new(test_image(MIB), MIB);
    let mut fixed = usb_drive();
    fixed.removable = false;
    assert_eq!(flash(&mut job, &fixed, MIB as u64, false).result, Err(FlashError::SafetyViolation));
    let mut disk0 = usb_drive();
    disk0.device = "/dev/disk0".to_string();
    assert_eq!(check_target(&disk0), Err(FlashError::SafetyViolation));
    assert_eq!(flash(&mut job, &disk0, MIB as u64, false).result, Err(FlashError::SafetyViolation));
    assert_eq!(job.writes, 0);
    assert_eq!(check_target(&usb_drive()), Ok(()));
}

#[test]
fn ten_mib_image_is_written_byte_for_byte() {
    let image = test_image(10 * MIB);
    let mut job = MemoryJob::new(image.clone(), 10 * MIB);
    let out = flash(&mut job, &usb_drive(), image.len() as u64, false);
    assert_eq!(out.result, Ok(()));
    assert_eq!(job.device, image);
    assert!(!out.events.iter().any(|p| p.phase == Phase::Verifying));
    let last = out.events.last().unwrap();
    assert_eq!(last.phase, Phase::Done);
    assert_eq!(last.bytes_written, image.len() as u64);
    assert_eq!(last.percent, 100);
    assert_eq!(terminal_count(&out.events), 1);
    assert_eq!(job.seen.len(), out.events.len());
}

#[test]
fn writing_counts_never_go_down_and_end_at_the_image_size() {
    let image = test_image(10 * MIB);
    let mut job = MemoryJob::new(image.clone(), 10 * MIB);
    let out = flash(&mut job, &usb_drive(), image.len() as u64, false);
    assert_eq!(out.result, Ok(()));
    let counts = writing_counts(&out.events);
    assert_eq!(counts, vec![0, 4194304, 8388608, 10485760]);
    assert!(counts.windows(2).all(|w| w[0] <= w[1]));
    assert_eq!(*counts.last().unwrap(), image.len() as u64);
}

#[test]
fn verified_flash_reaches_full_verification() {
    let image = test_image(10 * MIB);
    let mut job = MemoryJob::new(image.clone(), 10 * MIB);
    let out = flash(&mut job, &usb_drive(), image.len() as u64, true);
    assert_eq!(out.result, Ok(()));
    assert_eq!(job.device, image);
    let verifying: Vec<&FlashProgress> = out.events.iter().filter(|p| p.phase == Phase::Verifying).collect();
    let last_verify = verifying.last().unwrap();
    assert_eq!(last_verify.percent, 100);
    assert_eq!(last_verify.bytes_written, image.len() as u64);
    assert_eq!(out.events.last().unwrap().phase, Phase::Done);
    assert_eq!(terminal_count(&out.events), 1);
}

#[test]
fn corrupted_byte_fails_verification_near_its_offset() {
    let image = test_image(10 * MIB);
    let mut job = MemoryJob::new(image.clone(), 10 * MIB);
    assert_eq!(flash(&mut job, &usb_drive(), image.len() as u64, false).result, Ok(()));
    job.device[5_000_000] ^= 0xff;
    let out = verify_written(&mut job, image.len() as u64);
    match out.result {
        Err(FlashError::VerificationFailed(off)) => {
            assert_eq!(off, 4194304);
            assert!(off <= 5_000_000 && 5_000_000 < off + CHUNK_SIZE as u64);
        }
        other => panic!("expected a verification failure, got {:?}", other),
    }
    assert_eq!(out.events.last().unwrap().phase, Phase::Error);
    assert_eq!(terminal_count(&out.events), 1);
}

#[test]
fn cancellation_stops_within_one_chunk_and_never_reports_done() {
    let image = test_image(10 * MIB);
    let mut job = MemoryJob::new(image.clone(), 10 * MIB);
    job.cancel_after_writes = Some(1);
    let out = flash(&mut job, &usb_drive(), image.len() as u64, true);
    assert_eq!(out.result, Err(FlashError::Cancelled));
    assert!(job.bytes_written <= 2 * CHUNK_SIZE);
    assert_eq!(job.writes, 1);
    assert!(!out.events.iter().any(|p| p.phase == Phase::Done));
    assert_eq!(out.events.last().unwrap().phase, Phase::Error);
    assert_eq!(out.events.last().unwrap().message, "Cancelled by user");
}

#[test]
fn device_too_small_is_an_io_error() {
    let image = test_image(6 * MIB);
    let mut job = MemoryJob::new(image.clone(), 5 * MIB);
    let out = flash(&mut job, &usb_drive(), image.len() as u64, false);
    assert_eq!(out.result, Err(FlashError::Io("no space left on device".to_string())));
    assert_eq!(terminal_count(&out.events), 1);
}

#[test]
fn image_shorter_than_its_size_is_an_io_error() {
    let image = test_image(MIB);
    let mut job = MemoryJob::new(image, 2 * MIB);
    let out = flash(&mut job, &usb_drive(), 2 * MIB as u64, false);
    assert!(matches!(out.result, Err(FlashError::Io(_))));
}

#[test]
fn empty_image_succeeds_at_full_percent() {
    let mut job = MemoryJob::new(Vec::new(), MIB);
    let out = flash(&mut job, &usb_drive(), 0, true);
    assert_eq!(out.result, Ok(()));
    assert_eq!(job.writes, 0);
    assert_eq!(out.events.last().unwrap().percent, 100);
}

#[test]
fn progress_formulas() {
    assert_eq!(percent(0, 0), 100);
    assert_eq!(percent(1, 3), 33);
    assert_eq!(percent(5_242_880, 10_485_760), 50);
    assert_eq!(percent(u64::MAX, u64::MAX), 100);
    assert_eq!(speed(4_194_304, 0), 0);
    assert_eq!(speed(4_194_304, 2_000), 2_097_152);
    assert_eq!(speed(u64::MAX, 1), u64::MAX);
    assert_eq!(eta(4_194_304, 10_485_760, 0), 0);
    assert_eq!(eta(4_194_304, 10_485_760, 2_097_152), 3);
}

#[test]
fn snapshot_speed_and_eta_follow_the_clock() {
    let image = test_image(8 * MIB);
    let mut job = MemoryJob::new(image.clone(), 8 * MIB);
    let out = flash(&mut job, &usb_drive(), image.len() as u64, false);
    let first_chunk = out.events.iter().find(|p| p.phase == Phase::Writing && p.bytes_written == 4194304).unwrap();
    assert_eq!(first_chunk.percent, 50);
    assert_eq!(first_chunk.speed, 4194304 * 1000 / 100);
    assert_eq!(first_chunk.eta, 0);
}

#[test]
fn one_job_per_device() {
    let mut locks = DeviceLocks::new();
    assert_eq!(locks.acquire("/dev/sdb"), Ok(()));
    assert!(locks.is_busy("/dev/sdb"));
    assert_eq!(locks.acquire("/dev/sdb"), Err(FlashError::DeviceBusy));
    assert_eq!(locks.acquire("/dev/sdc"), Ok(()));
    locks.release("/dev/sdb");
    assert!(!locks.is_busy("/dev/sdb"));
    assert!(locks.is_busy("/dev/sdc"));
    assert_eq!(locks.acquire("/dev/sdb"), Ok(()));
}

#[test]
fn write_step_decisions() {
    assert!(matches!(write_step(0, 10, true, vec![1, 2]), WriteStep::Stop(FlashError::Cancelled)));
    assert!(matches!(write_step(10, 10, false, vec![]), WriteStep::Finished));
    assert!(matches!(write_step(4, 10, false, vec![]), WriteStep::Stop(FlashError::Io(_))));
    assert!(matches!(write_step(8, 10, false, vec![1, 2, 3]), WriteStep::Stop(FlashError::Io(_))));
    match write_step(4, 10, false, vec![7, 8, 9]) {
        WriteStep::Write(bytes) => assert_eq!(bytes, vec![7, 8, 9]),
        other => panic!("expected a write, got {:?}", other),
    }
}

#[test]
fn verify_step_decisions() {
    let a = vec![1u8, 2, 3];
    let b = vec![1u8, 2, 4];
    assert!(matches!(verify_step(0, 6, true, &a, &a), VerifyStep::Stop(FlashError::Cancelled)));
    assert!(matches!(verify_step(3, 6, false, &a, &a), VerifyStep::Next(6)));
    assert!(matches!(verify_step(3, 6, false, &a, &b), VerifyStep::Stop(FlashError::VerificationFailed(3))));
    assert!(matches!(verify_step(3, 6, false, &a, &vec![1, 2]), VerifyStep::Stop(FlashError::VerificationFailed(3))));
    assert!(matches!(verify_step(6, 6, false, &vec![], &vec![]), VerifyStep::Finished));
    assert!(matches!(verify_step(5, 6, false, &a, &a), VerifyStep::Stop(FlashError::Io(_))));
}

#[test]
fn rejected_target_leaves_the_job_untouched() {
    let mut job = MemoryJob::new(test_image(MIB), MIB);
    let mut target = usb_drive();
    target.is_system = true;
    let out = flash(&mut job, &target, MIB as u64, true);
    assert_eq!(out.result, Err(FlashError::SafetyViolation));
    assert_eq!(job.clock, 0);
    assert!(job.seen.is_empty());
    assert!(job.device.iter().all(|b| *b == 0));
}

#[test]
fn every_snapshot_counts_against_the_image_size() {
    let image = test_image(10 * MIB);
    let mut job = MemoryJob::new(image.clone(), 10 * MIB);
    let out = flash(&mut job, &usb_drive(), image.len() as u64, true);
    assert!(out.events.iter().all(|p| p.total_bytes == image.len() as u64));
    let last_writing = out.events.iter().rposition(|p| p.phase == Phase::Writing).unwrap();
    let first_verifying = out.events.iter().position(|p| p.phase == Phase::Verifying).unwrap();
    assert!(last_writing < first_verifying);
}
