//! Host metrics: one consistent snapshot out of raw telemetry readings.

use vstd::prelude::*;
use crate::fixed::{magnitude_of, mul_add_div, raw_units, signed, trunc_div, Fixed, Wide, ONE};

verus! {

/// Bytes in a megabyte.
pub const BYTES_PER_MB: u64 = 1_048_576;

/// Bytes in a gigabyte.
pub const BYTES_PER_GB: u64 = 1_073_741_824;

/// Raw units of one hundred percent.
pub const HUNDRED_PERCENT: i64 = 100_000_000_000_000;

/// The sum of a sequence of integers.
pub open spec fn sum_of(numbers: Seq<int>) -> int
    decreases numbers.len(),
{
    if numbers.len() == 0 {
        0
    } else {
        sum_of(numbers.drop_last()) + numbers.last()
    }
}

/// The sum of the first `n + 1` numbers is the sum of the first `n` and the
/// one that follows them.
pub proof fn lemma_sum_of_next(numbers: Seq<int>, n: int)
    requires
        0 <= n < numbers.len(),
    ensures
        sum_of(numbers.take(n + 1)) == sum_of(numbers.take(n)) + numbers[n],
{
    assert(numbers.take(n + 1).drop_last() =~= numbers.take(n));
}

/// The mean of a sequence, rounded towards zero; zero for the empty sequence.
pub open spec fn mean(numbers: Seq<int>) -> int {
    if numbers.len() == 0 {
        0
    } else {
        trunc_div(sum_of(numbers), numbers.len() as int)
    }
}

/// `part` as a percentage of `whole`, in raw units and rounded towards zero;
/// zero where `whole` is not above zero.
pub open spec fn percent(part: int, whole: int) -> int {
    if whole <= 0 {
        0
    } else {
        trunc_div(part * HUNDRED_PERCENT, whole)
    }
}

/// A number of bytes in gigabytes, in raw units and rounded towards zero.
pub open spec fn gigabytes(bytes: int) -> int {
    trunc_div(bytes * ONE, BYTES_PER_GB as int)
}

/// `part` as a percentage of `whole`, where `part` is given by sign and size.
pub fn percent_of(negative: bool, part: u128, whole: u128) -> (p: Wide)
    ensures
        p@ == percent(signed(negative, part as int), whole as int),
        p.is_canonical(),
{
    if whole == 0 {
        Wide::from_sign_size(false, 0, 0)
    } else {
        let q = mul_add_div(part, HUNDRED_PERCENT as u64, 0, whole);
        Wide::from_sign_size(negative, q.0, q.1)
    }
}

/// A number of bytes, given by sign and size, in gigabytes.
pub fn gigabytes_of(negative: bool, bytes: u128) -> (gb: Wide)
    ensures
        gb@ == gigabytes(signed(negative, bytes as int)),
        gb.is_canonical(),
{
    let q = mul_add_div(bytes, ONE as u64, 0, BYTES_PER_GB as u128);
    Wide::from_sign_size(negative, q.0, q.1)
}

/// The mean of a list of numbers, rounded towards zero; zero for an empty list.
pub fn mean_of(values: &Vec<Fixed>) -> (m: Fixed)
    ensures
        m@ == mean(raw_units(values@)),
{
    let n = values.len();
    if n == 0 {
        return Fixed::zero();
    }
    let mut sum: i128 = 0;
    let mut i: usize = 0;
    while i < n
        invariant
            n == values.len(),
            i <= n,
            sum == sum_of(raw_units(values@).take(i as int)),
            i * (-0x8000_0000_0000_0000) <= sum <= i * 0x7fff_ffff_ffff_ffff,
        decreases n - i,
    {
        proof {
            lemma_sum_of_next(raw_units(values@), i as int);
        }
        sum = sum + values[i].raw as i128;
        i = i + 1;
    }
    assert(raw_units(values@).take(n as int) =~= raw_units(values@));
    let size: u128 = magnitude_of(sum) / (n as u128);
    assert(sum >= 0 ==> size <= 0x7fff_ffff_ffff_ffff) by (nonlinear_arith)
        requires
            n > 0,
            sum >= 0 ==> size == (sum as int) / (n as int),
            sum <= n * 0x7fff_ffff_ffff_ffff,
    ;
    assert(sum < 0 ==> size <= 0x8000_0000_0000_0000) by (nonlinear_arith)
        requires
            n > 0,
            sum < 0 ==> size == (-(sum as int)) / (n as int),
            n * (-0x8000_0000_0000_0000) <= sum,
    ;
    if sum < 0 {
        Fixed { raw: (-(size as i128)) as i64 }
    } else {
        Fixed { raw: size as i64 }
    }
}

/// The sizes of one storage device, in bytes.
#[derive(Clone, Copy, Debug, PartialEq, Eq, Structural)]
pub struct DiskReading {
    pub total_space: u64,
    pub available_space: u64,
}

/// The counters of one network interface: bytes since the host came up.
#[derive(Clone, Copy, Debug, PartialEq, Eq, Structural)]
pub struct NetworkReading {
    pub total_received: u64,
    pub total_transmitted: u64,
}

/// The total size of each device.
pub open spec fn total_spaces(disks: Seq<DiskReading>) -> Seq<int> {
    Seq::new(disks.len(), |i: int| disks[i].total_space as int)
}

/// The free size of each device.
pub open spec fn available_spaces(disks: Seq<DiskReading>) -> Seq<int> {
    Seq::new(disks.len(), |i: int| disks[i].available_space as int)
}

/// The used size of each device: what is left of its total size without its
/// free size.
pub open spec fn used_spaces(disks: Seq<DiskReading>) -> Seq<int> {
    Seq::new(disks.len(), |i: int| disks[i].total_space - disks[i].available_space)
}

/// The bytes received on each interface.
pub open spec fn received(networks: Seq<NetworkReading>) -> Seq<int> {
    Seq::new(networks.len(), |i: int| networks[i].total_received as int)
}

/// The bytes transmitted on each interface.
pub open spec fn transmitted(networks: Seq<NetworkReading>) -> Seq<int> {
    Seq::new(networks.len(), |i: int| networks[i].total_transmitted as int)
}

/// The used sizes of the first `n` devices sum to the sum of their total sizes
/// less the sum of their free sizes.
pub proof fn lemma_used_is_total_less_available(disks: Seq<DiskReading>, n: int)
    requires
        0 <= n <= disks.len(),
    ensures
        sum_of(used_spaces(disks).take(n)) == sum_of(total_spaces(disks).take(n)) - sum_of(
            available_spaces(disks).take(n),
        ),
    decreases n,
{
    if n > 0 {
        lemma_used_is_total_less_available(disks, n - 1);
        lemma_sum_of_next(used_spaces(disks), n - 1);
        lemma_sum_of_next(total_spaces(disks), n - 1);
        lemma_sum_of_next(available_spaces(disks), n - 1);
    }
}

/// The summed total size and the summed free size of a list of devices.
pub fn disk_sums(disks: &Vec<DiskReading>) -> (sums: (u128, u128))
    ensures
        sums.0 == sum_of(total_spaces(disks@)),
        sums.1 == sum_of(available_spaces(disks@)),
{
    let n = disks.len();
    let mut total: u128 = 0;
    let mut available: u128 = 0;
    let mut i: usize = 0;
    while i < n
        invariant
            n == disks.len(),
            i <= n,
            total == sum_of(total_spaces(disks@).take(i as int)),
            available == sum_of(available_spaces(disks@).take(i as int)),
            total <= i * 0xffff_ffff_ffff_ffff,
            available <= i * 0xffff_ffff_ffff_ffff,
        decreases n - i,
    {
        proof {
            lemma_sum_of_next(total_spaces(disks@), i as int);
            lemma_sum_of_next(available_spaces(disks@), i as int);
        }
        total = total + disks[i].total_space as u128;
        available = available + disks[i].available_space as u128;
        i = i + 1;
    }
    assert(total_spaces(disks@).take(n as int) =~= total_spaces(disks@));
    assert(available_spaces(disks@).take(n as int) =~= available_spaces(disks@));
    (total, available)
}

/// The summed received and the summed transmitted bytes of a list of
/// interfaces.
pub fn network_sums(networks: &Vec<NetworkReading>) -> (sums: (u128, u128))
    ensures
        sums.0 == sum_of(received(networks@)),
        sums.1 == sum_of(transmitted(networks@)),
{
    let n = networks.len();
    let mut rx: u128 = 0;
    let mut tx: u128 = 0;
    let mut i: usize = 0;
    while i < n
        invariant
            n == networks.len(),
            i <= n,
            rx == sum_of(received(networks@).take(i as int)),
            tx == sum_of(transmitted(networks@).take(i as int)),
            rx <= i * 0xffff_ffff_ffff_ffff,
            tx <= i * 0xffff_ffff_ffff_ffff,
        decreases n - i,
    {
        proof {
            lemma_sum_of_next(received(networks@), i as int);
            lemma_sum_of_next(transmitted(networks@), i as int);
        }
        rx = rx + networks[i].total_received as u128;
        tx = tx + networks[i].total_transmitted as u128;
        i = i + 1;
    }
    assert(received(networks@).take(n as int) =~= received(networks@));
    assert(transmitted(networks@).take(n as int) =~= transmitted(networks@));
    (rx, tx)
}

/// What the host reported at one point in time.
#[derive(Clone, Debug, PartialEq, Eq)]
pub struct HostReadings {
    /// Usage of each logical core, in percent.
    pub cpu_usage: Vec<Fixed>,
    /// Size of the memory, in bytes.
    pub total_memory: u64,
    /// Memory in use, in bytes.
    pub used_memory: u64,
    /// The mounted storage devices.
    pub disks: Vec<DiskReading>,
    /// The network interfaces.
    pub networks: Vec<NetworkReading>,
    /// Load average over one minute.
    pub load_avg_1: Fixed,
    /// Load average over five minutes.
    pub load_avg_5: Fixed,
    /// Load average over fifteen minutes.
    pub load_avg_15: Fixed,
    /// Seconds since the host came up.
    pub uptime_secs: u64,
}

/// What a [`HostReadings`] holds, with numbers in raw units.
pub struct ReadingsModel {
    pub cpu_usage: Seq<int>,
    pub total_memory: int,
    pub used_memory: int,
    pub disks: Seq<DiskReading>,
    pub networks: Seq<NetworkReading>,
    pub load_avg_1: int,
    pub load_avg_5: int,
    pub load_avg_15: int,
    pub uptime_secs: int,
}

impl View for HostReadings {
    type V = ReadingsModel;

    open spec fn view(&self) -> ReadingsModel {
        ReadingsModel {
            cpu_usage: raw_units(self.cpu_usage@),
            total_memory: self.total_memory as int,
            used_memory: self.used_memory as int,
            disks: self.disks@,
            networks: self.networks@,
            load_avg_1: self.load_avg_1@,
            load_avg_5: self.load_avg_5@,
            load_avg_15: self.load_avg_15@,
            uptime_secs: self.uptime_secs as int,
        }
    }
}

/// One snapshot of the host's metrics.
#[derive(Clone, Copy, Debug, PartialEq, Eq)]
pub struct SystemMetrics {
    pub cpu_usage_percent: Fixed,
    pub cpu_count: usize,
    pub memory_total_mb: u64,
    pub memory_used_mb: u64,
    pub memory_percent: Wide,
    pub disk_total_gb: Wide,
    pub disk_used_gb: Wide,
    pub disk_percent: Wide,
    pub net_rx_bytes: u128,
    pub net_tx_bytes: u128,
    pub load_avg_1: Fixed,
    pub load_avg_5: Fixed,
    pub load_avg_15: Fixed,
    pub uptime_secs: u64,
}

/// What a [`SystemMetrics`] holds, with numbers in raw units.
pub struct MetricsModel {
    pub cpu_usage_percent: int,
    pub cpu_count: int,
    pub memory_total_mb: int,
    pub memory_used_mb: int,
    pub memory_percent: int,
    pub disk_total_gb: int,
    pub disk_used_gb: int,
    pub disk_percent: int,
    pub net_rx_bytes: int,
    pub net_tx_bytes: int,
    pub load_avg_1: int,
    pub load_avg_5: int,
    pub load_avg_15: int,
    pub uptime_secs: int,
}

impl View for SystemMetrics {
    type V = MetricsModel;

    open spec fn view(&self) -> MetricsModel {
        MetricsModel {
            cpu_usage_percent: self.cpu_usage_percent@,
            cpu_count: self.cpu_count as int,
            memory_total_mb: self.memory_total_mb as int,
            memory_used_mb: self.memory_used_mb as int,
            memory_percent: self.memory_percent@,
            disk_total_gb: self.disk_total_gb@,
            disk_used_gb: self.disk_used_gb@,
            disk_percent: self.disk_percent@,
            net_rx_bytes: self.net_rx_bytes as int,
            net_tx_bytes: self.net_tx_bytes as int,
            load_avg_1: self.load_avg_1@,
            load_avg_5: self.load_avg_5@,
            load_avg_15: self.load_avg_15@,
            uptime_secs: self.uptime_secs as int,
        }
    }
}

/// The snapshot that a set of readings amounts to.
///
/// Processor usage is the mean over the cores. Memory is counted in whole
/// megabytes, and its percentage taken of those. Storage is summed over the
/// devices in bytes, what is used being each device's total less its free
/// size, and given in gigabytes. Network counters are summed over the
/// interfaces. Load averages and uptime are as read.
pub open spec fn metrics_of(readings: ReadingsModel) -> MetricsModel {
    MetricsModel {
        cpu_usage_percent: mean(readings.cpu_usage),
        cpu_count: readings.cpu_usage.len() as int,
        memory_total_mb: readings.total_memory / (BYTES_PER_MB as int),
        memory_used_mb: readings.used_memory / (BYTES_PER_MB as int),
        memory_percent: percent(
            readings.used_memory / (BYTES_PER_MB as int),
            readings.total_memory / (BYTES_PER_MB as int),
        ),
        disk_total_gb: gigabytes(sum_of(total_spaces(readings.disks))),
        disk_used_gb: gigabytes(sum_of(used_spaces(readings.disks))),
        disk_percent: percent(
            sum_of(used_spaces(readings.disks)),
            sum_of(total_spaces(readings.disks)),
        ),
        net_rx_bytes: sum_of(received(readings.networks)),
        net_tx_bytes: sum_of(transmitted(readings.networks)),
        load_avg_1: readings.load_avg_1,
        load_avg_5: readings.load_avg_5,
        load_avg_15: readings.load_avg_15,
        uptime_secs: readings.uptime_secs,
    }
}

impl SystemMetrics {
    /// No number of the snapshot is held as a signed zero.
    pub open spec fn is_canonical(&self) -> bool {
        &&& self.memory_percent.is_canonical()
        &&& self.disk_total_gb.is_canonical()
        &&& self.disk_used_gb.is_canonical()
        &&& self.disk_percent.is_canonical()
    }

    /// Assembles the snapshot of a set of readings. Of plausible readings
    /// every percentage lies between nought and a hundred percent.
    pub fn from_readings(readings: &HostReadings) -> (metrics: SystemMetrics)
        ensures
            metrics@ == metrics_of(readings@),
            metrics.is_canonical(),
            plausible(readings@) ==> {
                &&& 0 <= metrics.cpu_usage_percent@ <= HUNDRED_PERCENT
                &&& 0 <= metrics.memory_percent@ <= HUNDRED_PERCENT
                &&& 0 <= metrics.disk_percent@ <= HUNDRED_PERCENT
            },
    {
        proof {
            if plausible(readings@) {
                lemma_percentages_in_range(readings@);
            }
        }
        let memory_total_mb: u64 = readings.total_memory / BYTES_PER_MB;
        let memory_used_mb: u64 = readings.used_memory / BYTES_PER_MB;
        let (disk_total, disk_available) = disk_sums(&readings.disks);
        proof {
            lemma_used_is_total_less_available(readings.disks@, readings.disks@.len() as int);
            let n = readings.disks@.len() as int;
            assert(used_spaces(readings.disks@).take(n) =~= used_spaces(readings.disks@));
            assert(total_spaces(readings.disks@).take(n) =~= total_spaces(readings.disks@));
            assert(available_spaces(readings.disks@).take(n) =~= available_spaces(
                readings.disks@,
            ));
        }
        let overdrawn: bool = disk_available > disk_total;
        let disk_used: u128 = if overdrawn {
            disk_available - disk_total
        } else {
            disk_total - disk_available
        };
        let (rx, tx) = network_sums(&readings.networks);
        SystemMetrics {
            cpu_usage_percent: mean_of(&readings.cpu_usage),
            cpu_count: readings.cpu_usage.len(),
            memory_total_mb,
            memory_used_mb,
            memory_percent: percent_of(false, memory_used_mb as u128, memory_total_mb as u128),
            disk_total_gb: gigabytes_of(false, disk_total),
            disk_used_gb: gigabytes_of(overdrawn, disk_used),
            disk_percent: percent_of(overdrawn, disk_used, disk_total),
            net_rx_bytes: rx,
            net_tx_bytes: tx,
            load_avg_1: readings.load_avg_1,
            load_avg_5: readings.load_avg_5,
            load_avg_15: readings.load_avg_15,
            uptime_secs: readings.uptime_secs,
        }
    }
}

/// The readings are what a sound host reports: each core is used between
/// nought and a hundred percent, no more memory is used than there is, and no
/// device has more free space than space.
pub open spec fn plausible(readings: ReadingsModel) -> bool {
    &&& forall|i: int|
        0 <= i < readings.cpu_usage.len() ==> 0 <= #[trigger] readings.cpu_usage[i]
            <= HUNDRED_PERCENT
    &&& 0 <= readings.used_memory <= readings.total_memory
    &&& forall|i: int|
        0 <= i < readings.disks.len() ==> (#[trigger] readings.disks[i]).available_space
            <= readings.disks[i].total_space
}

/// A sum lies between its length times a lower bound of its numbers and its
/// length times an upper bound of them.
pub proof fn lemma_sum_of_bounds(numbers: Seq<int>, low: int, high: int)
    requires
        forall|i: int| 0 <= i < numbers.len() ==> low <= #[trigger] numbers[i] <= high,
    ensures
        numbers.len() * low <= sum_of(numbers) <= numbers.len() * high,
    decreases numbers.len(),
{
    if numbers.len() > 0 {
        let front = numbers.drop_last();
        assert(forall|i: int| 0 <= i < front.len() ==> front[i] == numbers[i]);
        lemma_sum_of_bounds(front, low, high);
        assert(low <= numbers[numbers.len() - 1] <= high);
        assert(numbers.len() * low == front.len() * low + low) by (nonlinear_arith)
            requires
                numbers.len() == front.len() + 1,
        ;
        assert(numbers.len() * high == front.len() * high + high) by (nonlinear_arith)
            requires
                numbers.len() == front.len() + 1,
        ;
    }
}

/// Of two sequences of one length, the one that is nowhere larger has the sum
/// that is not larger.
pub proof fn lemma_sum_of_ordered(smaller: Seq<int>, larger: Seq<int>)
    requires
        smaller.len() == larger.len(),
        forall|i: int| 0 <= i < smaller.len() ==> smaller[i] <= larger[i],
    ensures
        sum_of(smaller) <= sum_of(larger),
    decreases smaller.len(),
{
    if smaller.len() > 0 {
        assert(forall|i: int|
            0 <= i < smaller.len() - 1 ==> smaller.drop_last()[i] == smaller[i]
                && larger.drop_last()[i] == larger[i]);
        lemma_sum_of_ordered(smaller.drop_last(), larger.drop_last());
        assert(smaller[smaller.len() - 1] <= larger[smaller.len() - 1]);
    }
}

proof fn lemma_percent_of_part(part: int, whole: int)
    requires
        0 <= part <= whole,
    ensures
        0 <= percent(part, whole) <= HUNDRED_PERCENT,
{
    if whole > 0 {
        assert(0 <= (part * 100_000_000_000_000) / whole <= 100_000_000_000_000)
            by (nonlinear_arith)
            requires
                0 <= part <= whole,
                whole > 0,
        ;
    }
}

/// Of plausible readings, every percentage of the snapshot lies between nought
/// and a hundred percent, and no count or size is negative.
pub proof fn lemma_percentages_in_range(readings: ReadingsModel)
    requires
        plausible(readings),
    ensures
        0 <= metrics_of(readings).cpu_usage_percent <= HUNDRED_PERCENT,
        0 <= metrics_of(readings).memory_percent <= HUNDRED_PERCENT,
        0 <= metrics_of(readings).disk_percent <= HUNDRED_PERCENT,
        0 <= metrics_of(readings).cpu_count,
        0 <= metrics_of(readings).memory_used_mb <= metrics_of(readings).memory_total_mb,
        0 <= metrics_of(readings).disk_used_gb <= metrics_of(readings).disk_total_gb,
{
    let cores = readings.cpu_usage;
    lemma_sum_of_bounds(cores, 0, HUNDRED_PERCENT as int);
    if cores.len() > 0 {
        assert(0 <= sum_of(cores) / (cores.len() as int) <= 100_000_000_000_000)
            by (nonlinear_arith)
            requires
                0 <= sum_of(cores) <= cores.len() * 100_000_000_000_000,
                cores.len() > 0,
        ;
    }
    let used_mb = readings.used_memory / (BYTES_PER_MB as int);
    let total_mb = readings.total_memory / (BYTES_PER_MB as int);
    lemma_percent_of_part(used_mb, total_mb);
    let used = used_spaces(readings.disks);
    let total = total_spaces(readings.disks);
    lemma_sum_of_bounds(used, 0, 0xffff_ffff_ffff_ffff);
    lemma_sum_of_ordered(used, total);
    lemma_percent_of_part(sum_of(used), sum_of(total));
}

/// What no device reports reads as zero: the processor usage without cores,
/// the memory percentage below one megabyte of memory, the storage sizes and
/// percentage without devices, the counters without interfaces.
pub proof fn lemma_nothing_reported_reads_zero(readings: ReadingsModel)
    ensures
        readings.cpu_usage.len() == 0 ==> metrics_of(readings).cpu_usage_percent == 0
            && metrics_of(readings).cpu_count == 0,
        0 <= readings.total_memory < BYTES_PER_MB ==> metrics_of(readings).memory_percent == 0,
        readings.disks.len() == 0 ==> metrics_of(readings).disk_total_gb == 0 && metrics_of(
            readings,
        ).disk_used_gb == 0 && metrics_of(readings).disk_percent == 0,
        readings.networks.len() == 0 ==> metrics_of(readings).net_rx_bytes == 0 && metrics_of(
            readings,
        ).net_tx_bytes == 0,
{
}

} // verus!
