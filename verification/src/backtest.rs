use vstd::prelude::*;

verus! {

use crate::arith::div_floor;
use crate::arith::lemma_div_stays_bounded;
use crate::arith::MAX_LEN;
use crate::arith::MAX_VAL;

/// One position: a fixed notional `money` bought at `at_price` on bar
/// `at_time`. The position's size is `money / at_price`; it is kept as
/// the pair so that the profit-and-loss arithmetic stays exact. The
/// `realize` flag flips once, when an exit rule closes the position.
#[derive(Clone, Copy, Debug, PartialEq, Eq, Structural)]
pub struct Position {
    pub at_price: i64,
    pub at_time: usize,
    pub money: i64,
    pub realize: bool,
}

impl Position {
    /// A position is usable against a price series of length `horizon`
    /// when its entry price and notional are positive scaled values and
    /// its entry bar lies inside the series.
    pub open spec fn wf(self, horizon: int) -> bool {
        &&& 1 <= self.at_price <= MAX_VAL
        &&& 1 <= self.money <= MAX_VAL
        &&& self.at_time < horizon
    }

    /// An unrealized position of notional `money` opened at `price` on
    /// bar `time`.
    pub fn new(price: i64, money: i64, time: usize) -> (r: Position)
        ensures
            r == (Position { at_price: price, at_time: time, money, realize: false }),
    {
        Position { at_price: price, at_time: time, money, realize: false }
    }
}

/// The fixed risk rules of a simulation run. Scaled fields (`threshold`,
/// `notional`, `capital`, `rsi_low`, `rsi_high`) carry the caller's
/// scale; the percentages are plain numbers.
#[derive(Clone, Copy, Debug, PartialEq, Eq, Structural)]
pub struct SimConfig {
    pub threshold: i64,
    pub notional: i64,
    pub capital: i64,
    pub take_profit_pct: i64,
    pub stop_loss_pct: i64,
    pub rsi_low: i64,
    pub rsi_high: i64,
}

impl SimConfig {
    /// Bounds under which every simulation computation stays in range.
    pub open spec fn valid(self) -> bool {
        &&& -MAX_VAL <= self.threshold <= MAX_VAL
        &&& 1 <= self.notional <= MAX_VAL
        &&& -MAX_VAL <= self.capital <= MAX_VAL
        &&& 0 <= self.take_profit_pct <= MAX_VAL
        &&& 0 <= self.stop_loss_pct <= MAX_VAL
        &&& -MAX_VAL <= self.rsi_low <= MAX_VAL
        &&& -MAX_VAL <= self.rsi_high <= MAX_VAL
    }
}

/// The five aggregate numbers a run reports. Losses are signed
/// negative; `net` is the sum of both totals. Positions never closed
/// count toward `total_positions` but toward neither outcome.
#[derive(Clone, Copy, Debug, PartialEq, Eq, Structural)]
pub struct TradeReport {
    pub total_positions: usize,
    pub profit_count: usize,
    pub profit_total: i128,
    pub loss_count: usize,
    pub loss_total: i128,
    pub net: i128,
}

/// Long take-profit: the price moved up by strictly more than
/// `tp` percent of the entry price. `(p - e) / e * 100 > tp`, stated
/// without the division since `e > 0`.
pub open spec fn long_profit_hit(p: i64, e: i64, tp: i64) -> bool {
    (p - e) * 100 > tp * e
}

/// Long stop-loss: the price moved down by strictly more than `sl`
/// percent of the entry price.
pub open spec fn long_loss_hit(p: i64, e: i64, sl: i64) -> bool {
    (p - e) * 100 < -(sl * e)
}

/// Short take-profit: mirror image of the long rule.
pub open spec fn short_profit_hit(p: i64, e: i64, tp: i64) -> bool {
    (p - e) * 100 < -(tp * e)
}

/// Short stop-loss: mirror image of the long rule.
pub open spec fn short_loss_hit(p: i64, e: i64, sl: i64) -> bool {
    (p - e) * 100 > sl * e
}

/// Whether the bar price `p` closes a position entered at `e`, on
/// either exit rule of the chosen side.
pub open spec fn exit_hit(p: i64, e: i64, short: bool, tp: i64, sl: i64) -> bool {
    if short {
        short_profit_hit(p, e, tp) || short_loss_hit(p, e, sl)
    } else {
        long_profit_hit(p, e, tp) || long_loss_hit(p, e, sl)
    }
}

/// The first bar at or after `i` whose price closes the position;
/// the series length when none does.
pub open spec fn first_exit(
    price: Seq<i64>,
    pos: Position,
    short: bool,
    tp: i64,
    sl: i64,
    i: int,
) -> int
    decreases price.len() - i,
{
    if i < 0 || i >= price.len() {
        price.len() as int
    } else if exit_hit(price[i], pos.at_price, short, tp, sl) {
        i
    } else {
        first_exit(price, pos, short, tp, sl, i + 1)
    }
}

/// The bar on which the position closes: the first exit hit strictly
/// after its entry bar; the series length when it stays open.
pub open spec fn close_index(price: Seq<i64>, pos: Position, short: bool, tp: i64, sl: i64) -> int {
    first_exit(price, pos, short, tp, sl, pos.at_time + 1)
}

/// Whether the position closes at all within the series.
pub open spec fn position_closes(
    price: Seq<i64>,
    pos: Position,
    short: bool,
    tp: i64,
    sl: i64,
) -> bool {
    close_index(price, pos, short, tp, sl) < price.len()
}

/// Whether the position closes as a profit (otherwise, a closing
/// position closes as a loss).
pub open spec fn position_profits(
    price: Seq<i64>,
    pos: Position,
    short: bool,
    tp: i64,
    sl: i64,
) -> bool {
    let k = close_index(price, pos, short, tp, sl);
    &&& k < price.len()
    &&& if short {
        short_profit_hit(price[k], pos.at_price, tp)
    } else {
        long_profit_hit(price[k], pos.at_price, tp)
    }
}

/// The signed profit or loss of a closing position: the price move
/// times the position size `money / at_price`, computed as
/// `(p - e) * money / e` with the division last and rounded toward
/// negative infinity; sign-inverted for shorts.
pub open spec fn position_pnl(
    price: Seq<i64>,
    pos: Position,
    short: bool,
    tp: i64,
    sl: i64,
) -> int {
    let k = close_index(price, pos, short, tp, sl);
    let q = (price[k] - pos.at_price) * pos.money / (pos.at_price as int);
    if short {
        -q
    } else {
        q
    }
}

/// How many of the positions close as profits.
pub open spec fn profit_count_of(
    price: Seq<i64>,
    ps: Seq<Position>,
    short: bool,
    tp: i64,
    sl: i64,
) -> int
    decreases ps.len(),
{
    if ps.len() == 0 {
        0
    } else {
        profit_count_of(price, ps.drop_last(), short, tp, sl) + if position_profits(
            price,
            ps.last(),
            short,
            tp,
            sl,
        ) {
            1int
        } else {
            0int
        }
    }
}

/// How many of the positions close as losses.
pub open spec fn loss_count_of(
    price: Seq<i64>,
    ps: Seq<Position>,
    short: bool,
    tp: i64,
    sl: i64,
) -> int
    decreases ps.len(),
{
    if ps.len() == 0 {
        0
    } else {
        loss_count_of(price, ps.drop_last(), short, tp, sl) + if position_closes(
            price,
            ps.last(),
            short,
            tp,
            sl,
        ) && !position_profits(price, ps.last(), short, tp, sl) {
            1int
        } else {
            0int
        }
    }
}

/// The summed profit of the positions that close as profits.
pub open spec fn profit_total_of(
    price: Seq<i64>,
    ps: Seq<Position>,
    short: bool,
    tp: i64,
    sl: i64,
) -> int
    decreases ps.len(),
{
    if ps.len() == 0 {
        0
    } else {
        profit_total_of(price, ps.drop_last(), short, tp, sl) + if position_profits(
            price,
            ps.last(),
            short,
            tp,
            sl,
        ) {
            position_pnl(price, ps.last(), short, tp, sl)
        } else {
            0int
        }
    }
}

/// The summed (negative) loss of the positions that close as losses.
pub open spec fn loss_total_of(
    price: Seq<i64>,
    ps: Seq<Position>,
    short: bool,
    tp: i64,
    sl: i64,
) -> int
    decreases ps.len(),
{
    if ps.len() == 0 {
        0
    } else {
        loss_total_of(price, ps.drop_last(), short, tp, sl) + if position_closes(
            price,
            ps.last(),
            short,
            tp,
            sl,
        ) && !position_profits(price, ps.last(), short, tp, sl) {
            position_pnl(price, ps.last(), short, tp, sl)
        } else {
            0int
        }
    }
}

/// Whether a bar closes the given position, computed.
fn hits(p: i64, e: i64, short: bool, tp: i64, sl: i64) -> (r: bool)
    requires
        -MAX_VAL <= p <= MAX_VAL,
        1 <= e <= MAX_VAL,
        0 <= tp <= MAX_VAL,
        0 <= sl <= MAX_VAL,
    ensures
        r == exit_hit(p, e, short, tp, sl),
{
    let d100: i128 = ((p - e) as i128) * 100;
    proof {
        assert(0 <= (tp as int) * (e as int) <= 1000000000000000000000000int) by (nonlinear_arith)
            requires
                0 <= tp as int <= 1000000000000,
                1 <= e as int <= 1000000000000,
        ;
        assert(0 <= (sl as int) * (e as int) <= 1000000000000000000000000int) by (nonlinear_arith)
            requires
                0 <= sl as int <= 1000000000000,
                1 <= e as int <= 1000000000000,
        ;
    }
    let tpe: i128 = (tp as i128) * (e as i128);
    let sle: i128 = (sl as i128) * (e as i128);
    if short {
        d100 < -tpe || d100 > sle
    } else {
        d100 > tpe || d100 < -sle
    }
}

/// Whether a closing bar closes the position as a profit, computed.
fn profits(p: i64, e: i64, short: bool, tp: i64) -> (r: bool)
    requires
        -MAX_VAL <= p <= MAX_VAL,
        1 <= e <= MAX_VAL,
        0 <= tp <= MAX_VAL,
    ensures
        r == if short {
            short_profit_hit(p, e, tp)
        } else {
            long_profit_hit(p, e, tp)
        },
{
    let d100: i128 = ((p - e) as i128) * 100;
    proof {
        assert(0 <= (tp as int) * (e as int) <= 1000000000000000000000000int) by (nonlinear_arith)
            requires
                0 <= tp as int <= 1000000000000,
                1 <= e as int <= 1000000000000,
        ;
    }
    let tpe: i128 = (tp as i128) * (e as i128);
    if short {
        d100 < -tpe
    } else {
        d100 > tpe
    }
}

/// The bar on which the position closes, or the series length when it
/// never does: a forward scan from the bar after entry.
fn find_exit(price: &Vec<i64>, pos: &Position, short: bool, tp: i64, sl: i64) -> (r: usize)
    requires
        price@.len() <= MAX_LEN,
        forall|i: int| 0 <= i < price@.len() ==> 1 <= #[trigger] price@[i] <= MAX_VAL,
        pos.wf(price@.len() as int),
        0 <= tp <= MAX_VAL,
        0 <= sl <= MAX_VAL,
    ensures
        r == close_index(price@, *pos, short, tp, sl),
{
    let n: usize = price.len();
    let mut t: usize = pos.at_time + 1;
    while t < n
        invariant
            pos.at_time + 1 <= t <= n,
            n == price@.len(),
            forall|i: int| 0 <= i < price@.len() ==> 1 <= #[trigger] price@[i] <= MAX_VAL,
            pos.wf(price@.len() as int),
            0 <= tp <= MAX_VAL,
            0 <= sl <= MAX_VAL,
            first_exit(price@, *pos, short, tp, sl, pos.at_time + 1) == first_exit(
                price@,
                *pos,
                short,
                tp,
                sl,
                t as int,
            ),
        decreases n - t,
    {
        if hits(price[t], pos.at_price, short, tp, sl) {
            return t;
        }
        proof {
            assert(first_exit(price@, *pos, short, tp, sl, t as int) == first_exit(
                price@,
                *pos,
                short,
                tp,
                sl,
                t as int + 1,
            ));
        }
        t += 1;
    }
    n
}

/// Scans the price series and closes every position whose exit rule
/// triggers, then reports the aggregate outcome. Each position closes
/// at the first bar strictly after its entry on which the move from its
/// entry price passes the take-profit or stop-loss percentage; a
/// position that never triggers stays open and is excluded from the
/// totals. `pos_type` false is the long policy, true the short one.
pub fn realizing_pos(
    price: &Vec<i64>,
    pos_list: &mut Vec<Position>,
    pos_type: bool,
    tp: i64,
    sl: i64,
) -> (r: TradeReport)
    requires
        price@.len() <= MAX_LEN,
        forall|i: int| 0 <= i < price@.len() ==> 1 <= #[trigger] price@[i] <= MAX_VAL,
        old(pos_list)@.len() <= MAX_LEN,
        forall|j: int|
            0 <= j < old(pos_list)@.len() ==> (#[trigger] old(pos_list)@[j]).wf(
                price@.len() as int,
            ),
        forall|j: int| 0 <= j < old(pos_list)@.len() ==> !(#[trigger] old(pos_list)@[j]).realize,
        0 <= tp <= MAX_VAL,
        0 <= sl <= MAX_VAL,
    ensures
        final(pos_list)@.len() == old(pos_list)@.len(),
        forall|j: int|
            0 <= j < old(pos_list)@.len() ==> {
                let p = #[trigger] final(pos_list)@[j];
                &&& p.at_price == old(pos_list)@[j].at_price
                &&& p.at_time == old(pos_list)@[j].at_time
                &&& p.money == old(pos_list)@[j].money
                &&& p.realize == position_closes(price@, old(pos_list)@[j], pos_type, tp, sl)
            },
        r.total_positions == old(pos_list)@.len(),
        r.profit_count == profit_count_of(price@, old(pos_list)@, pos_type, tp, sl),
        r.loss_count == loss_count_of(price@, old(pos_list)@, pos_type, tp, sl),
        r.profit_total == profit_total_of(price@, old(pos_list)@, pos_type, tp, sl),
        r.loss_total == loss_total_of(price@, old(pos_list)@, pos_type, tp, sl),
        r.net == r.profit_total + r.loss_total,
{
    let n_pos: usize = pos_list.len();
    let mut updated: Vec<Position> = Vec::new();
    let mut pc: usize = 0;
    let mut lc: usize = 0;
    let mut ps: i128 = 0;
    let mut ls: i128 = 0;
    let mut j: usize = 0;
    while j < n_pos
        invariant
            j <= n_pos,
            n_pos == pos_list@.len(),
            pos_list@ == old(pos_list)@,
            price@.len() <= MAX_LEN,
            forall|i: int| 0 <= i < price@.len() ==> 1 <= #[trigger] price@[i] <= MAX_VAL,
            n_pos <= MAX_LEN,
            forall|k: int|
                0 <= k < n_pos ==> (#[trigger] pos_list@[k]).wf(price@.len() as int),
            forall|k: int| 0 <= k < n_pos ==> !(#[trigger] pos_list@[k]).realize,
            0 <= tp <= MAX_VAL,
            0 <= sl <= MAX_VAL,
            updated@.len() == j,
            forall|k: int|
                0 <= k < j ==> {
                    let p = #[trigger] updated@[k];
                    &&& p.at_price == pos_list@[k].at_price
                    &&& p.at_time == pos_list@[k].at_time
                    &&& p.money == pos_list@[k].money
                    &&& p.realize == position_closes(price@, pos_list@[k], pos_type, tp, sl)
                },
            pc <= j,
            lc <= j,
            pc == profit_count_of(price@, pos_list@.take(j as int), pos_type, tp, sl),
            lc == loss_count_of(price@, pos_list@.take(j as int), pos_type, tp, sl),
            ps == profit_total_of(price@, pos_list@.take(j as int), pos_type, tp, sl),
            ls == loss_total_of(price@, pos_list@.take(j as int), pos_type, tp, sl),
            -((j as int) * 3000000000000000000000000int) <= ps <= (j as int)
                * 3000000000000000000000000int,
            -((j as int) * 3000000000000000000000000int) <= ls <= (j as int)
                * 3000000000000000000000000int,
        decreases n_pos - j,
    {
        let p: Position = pos_list[j];
        let k: usize = find_exit(price, &p, pos_type, tp, sl);
        proof {
            assert(pos_list@.take(j + 1 as int).drop_last() == pos_list@.take(j as int));
            assert(pos_list@.take(j + 1 as int).last() == pos_list@[j as int]);
        }
        if k < price.len() {
            let diff: i64 = price[k] - p.at_price;
            proof {
                assert(-3000000000000000000000000int <= (diff as int) * (p.money as int)
                    <= 3000000000000000000000000int) by (nonlinear_arith)
                    requires
                        -2000000000000 <= diff as int <= 2000000000000,
                        1 <= p.money as int <= 1000000000000,
                ;
            }
            let num: i128 = (diff as i128) * (p.money as i128);
            proof {
                lemma_div_stays_bounded(num as int, p.at_price as int, 3000000000000000000000000int);
            }
            let q: i128 = div_floor(num, p.at_price as i128);
            let pnl: i128 = if pos_type {
                -q
            } else {
                q
            };
            if profits(price[k], p.at_price, pos_type, tp) {
                pc = pc + 1;
                ps = ps + pnl;
            } else {
                lc = lc + 1;
                ls = ls + pnl;
            }
            updated.push(Position { at_price: p.at_price, at_time: p.at_time, money: p.money, realize: true });
        } else {
            updated.push(p);
        }
        j += 1;
    }
    proof {
        assert(pos_list@.take(n_pos as int) == pos_list@);
    }
    let report = TradeReport {
        total_positions: n_pos,
        profit_count: pc,
        profit_total: ps,
        loss_count: lc,
        loss_total: ls,
        net: ps + ls,
    };
    *pos_list = updated;
    report
}

/// The positions the threshold policy opens over the first `n` bars:
/// one of notional `cfg.notional` on every bar whose signal reaches
/// `cfg.threshold`, as long as the running capital is still positive.
/// Capital starts at `cfg.capital` and falls by the notional on each
/// entry; it is never replenished within a run.
pub open spec fn f_entries(
    price: Seq<i64>,
    signal: Seq<i64>,
    cfg: SimConfig,
    n: int,
) -> Seq<Position>
    decreases n,
{
    if n <= 0 {
        Seq::empty()
    } else {
        let pre = f_entries(price, signal, cfg, n - 1);
        if signal[n - 1] >= cfg.threshold && cfg.capital - pre.len() * cfg.notional > 0 {
            pre.push(
                Position {
                    at_price: price[n - 1],
                    at_time: (n - 1) as usize,
                    money: cfg.notional,
                    realize: false,
                },
            )
        } else {
            pre
        }
    }
}

/// Runs the threshold entry policy over a price series and its signal
/// series, then closes positions under the percentage exit rules and
/// reports the outcome. `pos_type` false simulates longs, true shorts.
pub fn f_backtest(price: &Vec<i64>, signal: &Vec<i64>, pos_type: bool, cfg: SimConfig) -> (r:
    TradeReport)
    requires
        price@.len() == signal@.len(),
        price@.len() <= MAX_LEN,
        forall|i: int| 0 <= i < price@.len() ==> 1 <= #[trigger] price@[i] <= MAX_VAL,
        forall|i: int| 0 <= i < signal@.len() ==> -MAX_VAL <= #[trigger] signal@[i] <= MAX_VAL,
        cfg.valid(),
    ensures
        ({
            let ps = f_entries(price@, signal@, cfg, price@.len() as int);
            &&& r.total_positions == ps.len()
            &&& r.profit_count == profit_count_of(
                price@,
                ps,
                pos_type,
                cfg.take_profit_pct,
                cfg.stop_loss_pct,
            )
            &&& r.loss_count == loss_count_of(
                price@,
                ps,
                pos_type,
                cfg.take_profit_pct,
                cfg.stop_loss_pct,
            )
            &&& r.profit_total == profit_total_of(
                price@,
                ps,
                pos_type,
                cfg.take_profit_pct,
                cfg.stop_loss_pct,
            )
            &&& r.loss_total == loss_total_of(
                price@,
                ps,
                pos_type,
                cfg.take_profit_pct,
                cfg.stop_loss_pct,
            )
            &&& r.net == r.profit_total + r.loss_total
        }),
{
    let n: usize = price.len();
    let mut pos_list: Vec<Position> = Vec::new();
    let mut cap: i128 = cfg.capital as i128;
    let mut i: usize = 0;
    while i < n
        invariant
            i <= n,
            n == price@.len(),
            n == signal@.len(),
            n <= MAX_LEN,
            forall|k: int| 0 <= k < price@.len() ==> 1 <= #[trigger] price@[k] <= MAX_VAL,
            forall|k: int| 0 <= k < signal@.len() ==> -MAX_VAL <= #[trigger] signal@[k] <= MAX_VAL,
            cfg.valid(),
            pos_list@ == f_entries(price@, signal@, cfg, i as int),
            pos_list@.len() <= i,
            cap == cfg.capital - pos_list@.len() * cfg.notional,
            -1000000000000 <= cap <= 1000000000000,
            forall|k: int| 0 <= k < pos_list@.len() ==> (#[trigger] pos_list@[k]).wf(n as int),
            forall|k: int| 0 <= k < pos_list@.len() ==> !(#[trigger] pos_list@[k]).realize,
        decreases n - i,
    {
        if signal[i] >= cfg.threshold && cap > 0 {
            let pos = Position::new(price[i], cfg.notional, i);
            proof {
                assert((pos_list@.len() + 1) * cfg.notional == pos_list@.len() * cfg.notional
                    + cfg.notional) by (nonlinear_arith);
            }
            cap = cap - (cfg.notional as i128);
            pos_list.push(pos);
        }
        i += 1;
    }
    realizing_pos(price, &mut pos_list, pos_type, cfg.take_profit_pct, cfg.stop_loss_pct)
}

/// Whether the indicator-band policy opens a position on one bar.
///
/// The normalized band position is `beta = (p - upper) / (2 * lower)`
/// with a positive `lower`; the bounds `beta < -0.9`, `beta < 0.9` and
/// `beta > 0` are stated as the exact integer comparisons
/// `10 * (p - upper) < -(18 * lower)` and so on. A long opens on an
/// oversold reading (`rsi` under `cfg.rsi_low`) deep below the band
/// with capital left; a short opens on an overbought reading above
/// `cfg.rsi_high` under the upper bound, where a run out of capital
/// still opens when the band position is strictly between 0 and 0.9.
pub open spec fn c_entry(
    p: i64,
    rsi: i64,
    upper: i64,
    lower: i64,
    pos_type: bool,
    cfg: SimConfig,
    cap: int,
) -> bool {
    if !pos_type {
        rsi < cfg.rsi_low && 10 * (p - upper) < -(18 * lower) && cap > 0
    } else {
        rsi > cfg.rsi_high && 10 * (p - upper) < 18 * lower && (cap > 0 || p > upper)
    }
}

/// The positions the indicator-band policy opens over the first `n`
/// bars, with the same running-capital rule as the threshold policy.
pub open spec fn c_entries(
    price: Seq<i64>,
    rsi: Seq<i64>,
    bb: Seq<(i64, i64)>,
    pos_type: bool,
    cfg: SimConfig,
    n: int,
) -> Seq<Position>
    decreases n,
{
    if n <= 0 {
        Seq::empty()
    } else {
        let pre = c_entries(price, rsi, bb, pos_type, cfg, n - 1);
        if c_entry(
            price[n - 1],
            rsi[n - 1],
            bb[n - 1].0,
            bb[n - 1].1,
            pos_type,
            cfg,
            cfg.capital - pre.len() * cfg.notional,
        ) {
            pre.push(
                Position {
                    at_price: price[n - 1],
                    at_time: (n - 1) as usize,
                    money: cfg.notional,
                    realize: false,
                },
            )
        } else {
            pre
        }
    }
}

/// Runs the indicator-band entry policy — RSI readings combined with a
/// normalized Bollinger-band position — over a price series, then
/// closes positions under the same percentage exit rules and reports
/// the outcome. `bb` pairs each bar with its `(upper, lower)` band
/// values; the lower value must be positive, since the band position
/// divides by it. `pos_type` false simulates longs, true shorts.
pub fn c_backtest(
    price: &Vec<i64>,
    rsi: &Vec<i64>,
    bb: &Vec<(i64, i64)>,
    pos_type: bool,
    cfg: SimConfig,
) -> (r: TradeReport)
    requires
        price@.len() == rsi@.len(),
        price@.len() == bb@.len(),
        price@.len() <= MAX_LEN,
        forall|i: int| 0 <= i < price@.len() ==> 1 <= #[trigger] price@[i] <= MAX_VAL,
        forall|i: int| 0 <= i < rsi@.len() ==> -MAX_VAL <= #[trigger] rsi@[i] <= MAX_VAL,
        forall|i: int|
            0 <= i < bb@.len() ==> -MAX_VAL <= (#[trigger] bb@[i]).0 <= MAX_VAL && 1 <= bb@[i].1
                <= MAX_VAL,
        cfg.valid(),
    ensures
        ({
            let ps = c_entries(price@, rsi@, bb@, pos_type, cfg, price@.len() as int);
            &&& r.total_positions == ps.len()
            &&& r.profit_count == profit_count_of(
                price@,
                ps,
                pos_type,
                cfg.take_profit_pct,
                cfg.stop_loss_pct,
            )
            &&& r.loss_count == loss_count_of(
                price@,
                ps,
                pos_type,
                cfg.take_profit_pct,
                cfg.stop_loss_pct,
            )
            &&& r.profit_total == profit_total_of(
                price@,
                ps,
                pos_type,
                cfg.take_profit_pct,
                cfg.stop_loss_pct,
            )
            &&& r.loss_total == loss_total_of(
                price@,
                ps,
                pos_type,
                cfg.take_profit_pct,
                cfg.stop_loss_pct,
            )
            &&& r.net == r.profit_total + r.loss_total
        }),
{
    let n: usize = price.len();
    let mut pos_list: Vec<Position> = Vec::new();
    let mut cap: i128 = cfg.capital as i128;
    let mut i: usize = 0;
    while i < n
        invariant
            i <= n,
            n == price@.len(),
            n == rsi@.len(),
            n == bb@.len(),
            n <= MAX_LEN,
            forall|k: int| 0 <= k < price@.len() ==> 1 <= #[trigger] price@[k] <= MAX_VAL,
            forall|k: int| 0 <= k < rsi@.len() ==> -MAX_VAL <= #[trigger] rsi@[k] <= MAX_VAL,
            forall|k: int|
                0 <= k < bb@.len() ==> -MAX_VAL <= (#[trigger] bb@[k]).0 <= MAX_VAL && 1 <= bb@[k].1
                    <= MAX_VAL,
            cfg.valid(),
            pos_list@ == c_entries(price@, rsi@, bb@, pos_type, cfg, i as int),
            pos_list@.len() <= i,
            cap == cfg.capital - pos_list@.len() * cfg.notional,
            -1000001000000000000 <= cap <= 1000000000000,
            forall|k: int| 0 <= k < pos_list@.len() ==> (#[trigger] pos_list@[k]).wf(n as int),
            forall|k: int| 0 <= k < pos_list@.len() ==> !(#[trigger] pos_list@[k]).realize,
        decreases n - i,
    {
        let p: i64 = price[i];
        let upper: i64 = bb[i].0;
        let lower: i64 = bb[i].1;
        let lhs: i128 = 10 * ((p - upper) as i128);
        let rhs: i128 = 18 * (lower as i128);
        let open_now: bool = if !pos_type {
            rsi[i] < cfg.rsi_low && lhs < -rhs && cap > 0
        } else {
            rsi[i] > cfg.rsi_high && lhs < rhs && (cap > 0 || p > upper)
        };
        if open_now {
            let pos = Position::new(p, cfg.notional, i);
            proof {
                assert((pos_list@.len() + 1) * cfg.notional == pos_list@.len() * cfg.notional
                    + cfg.notional) by (nonlinear_arith);
                assert(cfg.capital - (pos_list@.len() + 1) * cfg.notional
                    >= -1000001000000000000int) by (nonlinear_arith)
                    requires
                        pos_list@.len() + 1 <= 1000000,
                        1 <= cfg.notional <= 1000000000000,
                        cfg.capital >= -1000000000000,
                ;
            }
            cap = cap - (cfg.notional as i128);
            pos_list.push(pos);
        }
        i += 1;
    }
    realizing_pos(price, &mut pos_list, pos_type, cfg.take_profit_pct, cfg.stop_loss_pct)
}

} // verus!
