use rand::rngs::mock::StepRng;
use rand::{CryptoRng, RngCore};
use solana_sdk::signature::Keypair as SdkKeypair;
use solana_simulation::rng::{generate_test_keypair, test_rng, MockRng};

struct Steps(StepRng);

impl CryptoRng for Steps {}

impl RngCore for Steps {
    fn next_u32(&mut self) -> u32 {
        self.0.next_u32()
    }

    fn next_u64(&mut self) -> u64 {
        self.0.next_u64()
    }

    fn fill_bytes(&mut self, dest: &mut [u8]) {
        self.0.fill_bytes(dest)
    }

    fn try_fill_bytes(&mut self, dest: &mut [u8]) -> Result<(), rand::Error> {
        self.0.try_fill_bytes(dest)
    }
}

#[test]
fn numbers_go_up_in_steps() {
    let mut rng = MockRng::new(u64::MAX - 1, 3);
    let mut steps = StepRng::new(u64::MAX - 1, 3);
    assert_eq!(rng.next_u64(), u64::MAX - 1);
    assert_eq!(steps.next_u64(), u64::MAX - 1);
    assert_eq!(rng.next_u64(), 1);
    assert_eq!(steps.next_u64(), 1);
    assert_eq!(rng, MockRng { value: 4, step: 3 });
}

#[test]
fn small_numbers_are_the_low_bits() {
    let mut rng = MockRng::new(0x1234_5678_9abc_def0, 1);
    let mut steps = StepRng::new(0x1234_5678_9abc_def0, 1);
    assert_eq!(rng.next_u32(), 0x9abc_def0);
    assert_eq!(steps.next_u32(), 0x9abc_def0);
    assert_eq!(rng.value, 0x1234_5678_9abc_def1);
}

#[test]
fn bytes_are_those_of_the_numbers() {
    for length in [0usize, 1, 7, 8, 9, 31, 32, 37] {
        let mut rng = MockRng::new(0xfedc_ba98_7654_3210, 0x0101_0101_0101_0101);
        let mut steps = StepRng::new(0xfedc_ba98_7654_3210, 0x0101_0101_0101_0101);
        let mut ours = vec![0u8; length];
        let mut theirs = vec![0u8; length];
        rng.fill_bytes(&mut ours);
        steps.fill_bytes(&mut theirs);
        assert_eq!(ours, theirs);
        assert_eq!(rng.next_u64(), steps.next_u64());
    }
    let mut bytes = [0u8; 9];
    test_rng().fill_bytes(&mut bytes);
    assert_eq!(bytes, [1, 0, 0, 0, 0, 0, 0, 0, 2]);
}

#[test]
fn filling_never_fails() {
    let mut rng = test_rng();
    let mut bytes = [0u8; 12];
    assert_eq!(rng.try_fill_bytes(&mut bytes), Ok(()));
    assert_eq!(bytes, [1, 0, 0, 0, 0, 0, 0, 0, 2, 0, 0, 0]);
    assert_eq!(rng, MockRng { value: 3, step: 1 });
}

#[test]
fn draws_add_up() {
    let mut once = test_rng();
    let mut twice = test_rng();
    let mut bytes = [0u8; 40];
    once.fill_bytes(&mut bytes);
    twice.fill_bytes(&mut bytes[..16]);
    twice.fill_bytes(&mut bytes[16..]);
    assert_eq!(once, twice);
}

#[test]
fn test_keypairs_are_the_same_in_every_run() {
    let mut rng = test_rng();
    let mut steps = Steps(StepRng::new(1, 1));
    for _ in 0..3 {
        let ours = generate_test_keypair(&mut rng);
        let theirs = SdkKeypair::generate(&mut steps);
        assert_eq!(ours.to_bytes(), theirs.to_bytes());
    }
    assert_eq!(rng, MockRng { value: 13, step: 1 });
    let mut first = [0u8; 32];
    first[0] = 1;
    first[8] = 2;
    first[16] = 3;
    first[24] = 4;
    assert_eq!(generate_test_keypair(&mut test_rng()).to_bytes()[..32], first);
}

#[test]
fn test_keypairs_differ() {
    let mut rng = test_rng();
    let mut seen: Vec<[u8; 64]> = Vec::new();
    for _ in 0..50 {
        let bytes = generate_test_keypair(&mut rng).to_bytes();
        assert!(!seen.contains(&bytes));
        seen.push(bytes);
    }
}
