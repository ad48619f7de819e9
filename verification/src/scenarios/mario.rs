//! A platform game, run by an emulated console.
use super::console::{asks, is_asking, ConsoleAction};
use crate::ratio::{quotient, Ratio};
use crate::tetris::{footer, footer_text, read_watch, Watch};
use crate::text::decimal;
use vstd::prelude::*;

verus! {

/// Where the game tells what the player is doing.
pub const PLAYER_STATUS: usize = 0x0772;

/// What the player is doing in a level. Anything else means dying, or going from one
/// screen to the next.
pub const IN_LEVEL: u8 = 3;

/// Where the page is kept. It grows as Mario moves right.
pub const SCREEN_PAGE: usize = 0x071A;

/// Where the column within the page is kept.
pub const COL_OFFSET: usize = 0x071C;

/// Where Mario is on the screen, across.
pub const MARIO_X: usize = 0x00CE;

/// Where Mario is in the world, down.
pub const MARIO_Y: usize = 0x00B5;

/// Where Mario's speed across is kept, with its sign.
pub const XVEL: usize = 0x009F;

/// Where Mario's speed down is kept, with its sign.
pub const YVEL: usize = 0x009D;

/// Where Mario's size is kept: small, big or fire.
pub const POWERUP: usize = 0x0756;

/// Where the game tells whether Mario is in the air.
pub const AIRBORNE: usize = 0x001C;

/// Where the kinds of the enemies are kept. Zero means that there is none.
pub const ENEMY_TYPE: usize = 0x000F;

/// Where the enemies are across.
pub const ENEMY_X: usize = 0x0087;

/// Where the enemies are down.
pub const ENEMY_Y: usize = 0x00CF;

/// How many enemies there can be.
pub const ENEMIES: usize = 5;

/// The outputs, as a display shows them: jump, run, left and right.
pub const OUTPUT_LABELS: [char; 4] = ['a', 'b', '<', '>'];

/// The buttons that the outputs stand for: A, B, Left and Right.
pub const BTN_INDICES: [usize; 4] = [0, 1, 6, 7];

/// How many numbers a network is shown: six of Mario and three of each enemy.
pub const NUM_INPUTS: usize = 21;

/// How many outputs a network has.
pub const NUM_OUTPUTS: usize = 4;

/// How many frames without progress end an episode.
pub const MAX_STALL: usize = 60;

/// How many frames a game for show lasts at most.
pub const EXHIBITION_FRAMES: usize = 3600;

/// How far Mario has come.
pub open spec fn progress_of(ram: Seq<u8>) -> int {
    ram[SCREEN_PAGE as int] * 256 + ram[COL_OFFSET as int]
}

/// Tells how far Mario has come.
pub fn mario_progress(ram: &[u8]) -> (p: u64)
    requires
        ram@.len() > COL_OFFSET,
    ensures
        p == progress_of(ram@),
{
    ram[SCREEN_PAGE] as u64 * 256 + ram[COL_OFFSET] as u64
}

/// The number that the byte `b` stands for where bytes have a sign.
pub open spec fn signed(b: u8) -> int {
    if b < 128 {
        b as int
    } else {
        b - 256
    }
}

/// Returns the number that the byte `b` stands for where bytes have a sign.
fn with_sign(b: u8) -> (n: i32)
    ensures
        n == signed(b),
{
    if b < 128 {
        b as i32
    } else {
        b as i32 - 256
    }
}

/// What a network is shown of the enemy `i`: whether it is there, and how far across and
/// down it is from Mario, as shares of the screen.
pub open spec fn enemy_sense(ram: Seq<u8>, i: int) -> Seq<Ratio> {
    if ram[ENEMY_TYPE + i] != 0 {
        seq![
            quotient(1, 1),
            quotient(ram[ENEMY_X + i] - ram[MARIO_X as int], 255),
            quotient(ram[ENEMY_Y + i] - ram[MARIO_Y as int], 255),
        ]
    } else {
        seq![quotient(0, 1), quotient(0, 1), quotient(0, 1)]
    }
}

/// What a network is shown of Mario: where he is, how fast he moves, how big he is and
/// whether he is in the air.
pub open spec fn own_sense(ram: Seq<u8>) -> Seq<Ratio> {
    seq![
        quotient(ram[MARIO_X as int] as int, 255),
        quotient(ram[MARIO_Y as int] as int, 255),
        quotient(signed(ram[XVEL as int]), 64),
        quotient(signed(ram[YVEL as int]), 64),
        quotient(ram[POWERUP as int] as int, 2),
        quotient(
            if ram[AIRBORNE as int] != 0 {
                1
            } else {
                0
            },
            1,
        ),
    ]
}

/// What a network is shown of Mario and the first `n` enemies.
pub open spec fn sense_of(ram: Seq<u8>, n: nat) -> Seq<Ratio>
    decreases n,
{
    if n == 0 {
        own_sense(ram)
    } else {
        sense_of(ram, (n - 1) as nat) + enemy_sense(ram, n - 1)
    }
}

/// Shows the game to a network.
pub fn fill_sense(ram: &[u8]) -> (sense: Vec<Ratio>)
    requires
        ram@.len() > POWERUP,
    ensures
        sense@ == sense_of(ram@, ENEMIES as nat),
        sense@.len() == NUM_INPUTS,
{
    let mx: i32 = ram[MARIO_X] as i32;
    let my: i32 = ram[MARIO_Y] as i32;
    let mut sense: Vec<Ratio> = Vec::new();
    sense.push(Ratio { num: mx, den: 255 });
    sense.push(Ratio { num: my, den: 255 });
    sense.push(Ratio { num: with_sign(ram[XVEL]), den: 64 });
    sense.push(Ratio { num: with_sign(ram[YVEL]), den: 64 });
    sense.push(Ratio { num: ram[POWERUP] as i32, den: 2 });
    sense.push(
        Ratio {
            num: if ram[AIRBORNE] != 0 {
                1
            } else {
                0
            },
            den: 1,
        },
    );
    assert(sense@ =~= own_sense(ram@));
    for i in 0..ENEMIES
        invariant
            ram@.len() > POWERUP,
            mx == ram@[MARIO_X as int],
            my == ram@[MARIO_Y as int],
            sense@ == sense_of(ram@, i as nat),
            sense@.len() == 6 + 3 * i,
    {
        let ghost before = sense@;
        if ram[ENEMY_TYPE + i] != 0 {
            sense.push(Ratio { num: 1, den: 1 });
            sense.push(Ratio { num: ram[ENEMY_X + i] as i32 - mx, den: 255 });
            sense.push(Ratio { num: ram[ENEMY_Y + i] as i32 - my, den: 255 });
        } else {
            sense.push(Ratio { num: 0, den: 1 });
            sense.push(Ratio { num: 0, den: 1 });
            sense.push(Ratio { num: 0, den: 1 });
        }
        assert(sense@ =~= before + enemy_sense(ram@, i as int));
    }
    sense
}

/// Tells what the console has to do in step `step` on the way from power-up to a game.
///
/// The title screen is there after some thirty frames. Start begins the game, and after
/// the card that names the world and the loading of the level, Mario stands at its start.
pub fn boot_action(step: usize) -> (action: ConsoleAction)
    ensures
        action == (if step == 35 {
            ConsoleAction::PressStart
        } else if step == 37 {
            ConsoleAction::ReleaseStart
        } else if step < 258 {
            ConsoleAction::Frame
        } else {
            ConsoleAction::Ready
        }),
{
    if step == 35 {
        ConsoleAction::PressStart
    } else if step == 37 {
        ConsoleAction::ReleaseStart
    } else if step < 258 {
        ConsoleAction::Frame
    } else {
        ConsoleAction::Ready
    }
}

/// Presses the buttons that `outputs` asks for and releases the others that it has a
/// say in.
pub fn apply_outputs(buttons: &mut [bool; 8], outputs: &[u64])
    requires
        outputs@.len() >= NUM_OUTPUTS,
    ensures
        forall|k: int|
            0 <= k < NUM_OUTPUTS ==> final(buttons)@[#[trigger] BTN_INDICES@[k] as int] == asks(
                outputs@[k],
            ),
        forall|i: int|
            0 <= i < 8 && !BTN_INDICES@.contains(i as usize) ==> #[trigger] final(buttons)@[i]
                == old(buttons)@[i],
{
    for k in 0..NUM_OUTPUTS
        invariant
            outputs@.len() >= NUM_OUTPUTS,
            buttons@.len() == 8,
            forall|j: int|
                0 <= j < k ==> buttons@[#[trigger] BTN_INDICES@[j] as int] == asks(outputs@[j]),
            forall|i: int|
                0 <= i < 8 && !BTN_INDICES@.contains(i as usize) ==> #[trigger] buttons@[i] == old(
                    buttons,
                )@[i],
    {
        assert(BTN_INDICES@.contains(BTN_INDICES@[k as int]));
        buttons[BTN_INDICES[k]] = is_asking(outputs[k]);
    }
}

/// An episode: how far Mario has come, and for how long he has not come further.
#[derive(Clone, Copy, Debug, PartialEq, Eq, Structural)]
pub struct Episode {
    /// The furthest that Mario has come.
    pub last_progress: u64,
    /// How many frames have passed since he came that far.
    pub stall: usize,
    /// How many frames are left.
    pub frames_left: usize,
    /// Whether the episode has been broken off.
    pub broken_off: bool,
}

/// The episode `e` after a frame that left the memory `ram`.
pub open spec fn episode_after(e: Episode, ram: Seq<u8>) -> Episode {
    let frames_left = (e.frames_left - 1) as usize;
    if ram[PLAYER_STATUS as int] != IN_LEVEL {
        Episode { frames_left, broken_off: true, ..e }
    } else if progress_of(ram) > e.last_progress {
        Episode {
            last_progress: progress_of(ram) as u64,
            stall: 0,
            frames_left,
            broken_off: e.broken_off,
        }
    } else {
        Episode {
            stall: (e.stall + 1) as usize,
            frames_left,
            broken_off: e.stall + 1 >= MAX_STALL,
            ..e
        }
    }
}

impl Episode {
    /// Whether another frame is to be played.
    pub open spec fn goes_on(&self) -> bool {
        self.frames_left > 0 && !self.broken_off
    }

    /// Whether the episode is one that frames lead to: it is broken off before Mario has
    /// stood still for too long.
    pub open spec fn wf(&self) -> bool {
        !self.broken_off ==> self.stall < MAX_STALL
    }

    /// An episode of at most `max_frames` frames that begins with the memory `ram`.
    pub fn new(max_frames: usize, ram: &[u8]) -> (e: Self)
        requires
            ram@.len() > COL_OFFSET,
        ensures
            e.wf(),
            e == (Episode {
                last_progress: progress_of(ram@) as u64,
                stall: 0,
                frames_left: max_frames,
                broken_off: false,
            }),
    {
        Episode {
            last_progress: mario_progress(ram),
            stall: 0,
            frames_left: max_frames,
            broken_off: false,
        }
    }

    /// Tells whether another frame is to be played.
    pub fn is_on(&self) -> (on: bool)
        ensures
            on == self.goes_on(),
    {
        self.frames_left > 0 && !self.broken_off
    }

    /// Takes note of a frame that left the memory `ram`.
    pub fn record(&mut self, ram: &[u8])
        requires
            old(self).wf(),
            old(self).goes_on(),
            ram@.len() > PLAYER_STATUS,
        ensures
            final(self).wf(),
            *final(self) == episode_after(*old(self), ram@),
    {
        self.frames_left = self.frames_left - 1;
        if ram[PLAYER_STATUS] != IN_LEVEL {
            self.broken_off = true;
            return ;
        }
        let p: u64 = mario_progress(ram);
        if p > self.last_progress {
            self.last_progress = p;
            self.stall = 0;
        } else {
            self.stall = self.stall + 1;
            if self.stall >= MAX_STALL {
                self.broken_off = true;
            }
        }
    }
}

/// The game as a scenario.
#[derive(Clone, Copy, Debug)]
pub struct MarioScenario {
    /// How many frames an episode lasts at most.
    pub max_frames: usize,
}

impl MarioScenario {
    /// A scenario whose episodes last `max_frames` frames at most.
    pub fn new(max_frames: usize) -> (s: Self)
        ensures
            s.max_frames == max_frames,
    {
        MarioScenario { max_frames }
    }

    /// How many numbers a network is shown and how many it puts out.
    pub fn io(&self) -> (d: (usize, usize))
        ensures
            d == (NUM_INPUTS, NUM_OUTPUTS),
    {
        (NUM_INPUTS, NUM_OUTPUTS)
    }

    /// Begins the episode that scores a genome, on a console whose memory holds `ram`.
    /// The score is how far Mario has come when it ends.
    pub fn eval(&self, ram: &[u8]) -> (e: Episode)
        requires
            ram@.len() > COL_OFFSET,
        ensures
            e.wf(),
            e == (Episode {
                last_progress: progress_of(ram@) as u64,
                stall: 0,
                frames_left: self.max_frames,
                broken_off: false,
            }),
    {
        Episode::new(self.max_frames, ram)
    }
}

/// Draws the footer of a game: the progress to the left and the generation to the right.
pub fn draw_mario_footer(progress: u64, watch: &Watch) -> (out: String)
    ensures
        out@ == footer_text(
            decimal(progress as nat),
            "gen "@ + decimal(watch.generation as nat),
        ),
{
    let (generation, _) = read_watch(watch);
    proof {
        reveal_strlit("gen ");
    }
    footer(progress, "gen ", 4, generation as u64)
}

/// The `i`-th pixel of the picture `bgra`, in which blue, green, red and opacity take turns,
/// with red above green above blue.
pub open spec fn pixel(bgra: Seq<u8>, i: int) -> int {
    bgra[4 * i + 2] * 0x1_0000 + bgra[4 * i + 1] * 0x100 + bgra[4 * i]
}

/// Fills `pixels` from the picture `bgra`.
pub fn copy_pixels(bgra: &[u8], pixels: &mut Vec<u32>)
    requires
        old(pixels)@.len() * 4 <= bgra@.len() + 1,
    ensures
        final(pixels)@.len() == old(pixels)@.len(),
        forall|i: int|
            0 <= i < old(pixels)@.len() ==> #[trigger] final(pixels)@[i] == pixel(bgra@, i),
{
    let count: usize = pixels.len();
    let size: usize = bgra.len();
    for i in 0..count
        invariant
            count == old(pixels)@.len(),
            pixels@.len() == old(pixels)@.len(),
            size == bgra@.len(),
            count * 4 <= size + 1,
            forall|j: int| 0 <= j < i ==> #[trigger] pixels@[j] == pixel(bgra@, j),
    {
        let red: u32 = bgra[i * 4 + 2] as u32;
        let green: u32 = bgra[i * 4 + 1] as u32;
        let blue: u32 = bgra[i * 4] as u32;
        assert((red << 16) | (green << 8) | blue == red * 0x1_0000 + green * 0x100 + blue)
            by (bit_vector)
            requires
                red <= 255,
                green <= 255,
                blue <= 255,
        ;
        pixels.set(i, (red << 16) | (green << 8) | blue);
    }
}

/// What a network is shown of where an enemy is lies between minus one and one.
pub proof fn enemies_are_on_the_screen(ram: Seq<u8>, i: int, k: int)
    requires
        0 <= i < ENEMIES,
        0 <= k < 3,
        ram.len() > POWERUP,
    ensures
        enemy_sense(ram, i)[k].den > 0,
        -enemy_sense(ram, i)[k].den <= enemy_sense(ram, i)[k].num <= enemy_sense(ram, i)[k].den,
{
}

/// The episode `e` after frames that left the memories `rams`, up to where it ends.
pub open spec fn episode_through(e: Episode, rams: Seq<Seq<u8>>) -> Episode
    decreases rams.len(),
{
    if rams.len() == 0 {
        e
    } else {
        let before = episode_through(e, rams.drop_last());
        if before.goes_on() {
            episode_after(before, rams.last())
        } else {
            before
        }
    }
}

/// An episode takes no more frames than it was given, and it never forgets how far Mario
/// has come.
pub proof fn episodes_end(e: Episode, rams: Seq<Seq<u8>>)
    requires
        e.wf(),
    ensures
        episode_through(e, rams).wf(),
        episode_through(e, rams).last_progress >= e.last_progress,
        episode_through(e, rams).frames_left <= e.frames_left,
        episode_through(e, rams).goes_on() ==> episode_through(e, rams).frames_left
            == e.frames_left - rams.len(),
        rams.len() >= e.frames_left ==> !episode_through(e, rams).goes_on(),
    decreases rams.len(),
{
    if rams.len() > 0 {
        episodes_end(e, rams.drop_last());
    }
}

/// Whether the `i`-th of the frames that left the memories `rams` was played, and in the
/// level.
pub open spec fn counts(e: Episode, rams: Seq<Seq<u8>>, i: int) -> bool {
    &&& 0 <= i < rams.len()
    &&& episode_through(e, rams.take(i)).goes_on()
    &&& rams[i][PLAYER_STATUS as int] == IN_LEVEL
}

/// The score of an episode is the furthest that Mario has come in it.
pub proof fn score_is_the_furthest(e: Episode, rams: Seq<Seq<u8>>)
    requires
        e.wf(),
    ensures
        forall|i: int| #[trigger]
            counts(e, rams, i) ==> progress_of(rams[i]) <= episode_through(e, rams).last_progress,
        episode_through(e, rams).last_progress == e.last_progress || exists|i: int| #[trigger]
            counts(e, rams, i) && progress_of(rams[i]) == episode_through(e, rams).last_progress,
    decreases rams.len(),
{
    if rams.len() > 0 {
        let earlier = rams.drop_last();
        let before = episode_through(e, earlier);
        let now = episode_through(e, rams);
        let last = rams.len() - 1;
        score_is_the_furthest(e, earlier);
        assert(rams.take(last) =~= earlier);
        assert forall|i: int| 0 <= i < last implies #[trigger] counts(e, rams, i) == counts(
            e,
            earlier,
            i,
        ) by {
            assert(rams.take(i) =~= earlier.take(i));
        }
        assert forall|i: int| #[trigger] counts(e, rams, i) implies progress_of(rams[i])
            <= now.last_progress by {
            if i < last {
                assert(counts(e, earlier, i));
            }
        }
        if now.last_progress != before.last_progress {
            assert(counts(e, rams, last));
        } else if before.last_progress != e.last_progress {
            let i = choose|i: int| #[trigger]
                counts(e, earlier, i) && progress_of(earlier[i]) == before.last_progress;
            assert(counts(e, rams, i));
        }
    }
}

/// A frame in which the player leaves the level ends the episode with the score it had.
pub proof fn leaving_the_level_ends_the_episode(e: Episode, ram: Seq<u8>)
    requires
        e.wf(),
        e.goes_on(),
        ram[PLAYER_STATUS as int] != IN_LEVEL,
    ensures
        !episode_after(e, ram).goes_on(),
        episode_after(e, ram).last_progress == e.last_progress,
{
}

/// Frames in which Mario does not come further end the episode when there have been
/// `MAX_STALL` of them in a row.
pub proof fn standing_still_ends_the_episode(e: Episode, rams: Seq<Seq<u8>>)
    requires
        e.wf(),
        e.stall == 0,
        rams.len() == MAX_STALL,
        forall|i: int|
            0 <= i < rams.len() ==> progress_of(#[trigger] rams[i]) <= e.last_progress,
    ensures
        !episode_through(e, rams).goes_on(),
        episode_through(e, rams).last_progress == e.last_progress,
{
    lemma_standing_still(e, rams);
}

/// Frames in which Mario does not come further are counted.
proof fn lemma_standing_still(e: Episode, rams: Seq<Seq<u8>>)
    requires
        e.wf(),
        e.stall == 0,
        rams.len() <= MAX_STALL,
        forall|i: int|
            0 <= i < rams.len() ==> progress_of(#[trigger] rams[i]) <= e.last_progress,
    ensures
        episode_through(e, rams).wf(),
        episode_through(e, rams).last_progress == e.last_progress,
        episode_through(e, rams).goes_on() ==> episode_through(e, rams).stall == rams.len(),
    decreases rams.len(),
{
    if rams.len() > 0 {
        let earlier = rams.drop_last();
        assert forall|i: int| 0 <= i < earlier.len() implies progress_of(#[trigger] earlier[i])
            <= e.last_progress by {
            assert(earlier[i] == rams[i]);
        }
        lemma_standing_still(e, earlier);
        assert(rams.last() == rams[rams.len() - 1]);
    }
}

/// Progress is made of the page and of the column within it.
pub proof fn progress_holds_page_and_column(ram: Seq<u8>)
    ensures
        progress_of(ram) / 256 == ram[0x71a],
        progress_of(ram) % 256 == ram[0x71c],
{
}

/// A speed is shown with its sign: it lies between -128 and 127, and differs from its byte by
/// nothing or by 256.
pub proof fn speeds_have_a_sign(b: u8)
    ensures
        -128 <= signed(b) <= 127,
        signed(b) == b || signed(b) == b - 256,
{
}

/// What is shown of Mario is what the memory holds of him: where he is as shares of 255, both
/// his speeds with their signs as shares of 64, his size as a share of two, and one where he
/// is in the air.
pub proof fn mario_is_shown_as_he_is(ram: Seq<u8>)
    ensures
        ({
            let shown = sense_of(ram, 5);
            &&& shown.len() == 21
            &&& shown[0].num == ram[0xce] && shown[0].den == 255
            &&& shown[1].num == ram[0xb5] && shown[1].den == 255
            &&& shown[2].den == 64 && -128 <= shown[2].num <= 127 && (shown[2].num - ram[0x9f])
                % 256 == 0
            &&& shown[3].den == 64 && -128 <= shown[3].num <= 127 && (shown[3].num - ram[0x9d])
                % 256 == 0
            &&& shown[4].num == ram[0x756] && shown[4].den == 2
            &&& shown[5].num == (if ram[0x1c] == 0 {
                0int
            } else {
                1int
            }) && shown[5].den == 1
        }),
{
    reveal_with_fuel(sense_of, 6);
    assert(sense_of(ram, 5).take(6) =~= own_sense(ram));
    assert forall|i: int| 0 <= i < 6 implies sense_of(ram, 5)[i] == #[trigger] own_sense(
        ram,
    )[i] by {
        assert(sense_of(ram, 5).take(6)[i] == sense_of(ram, 5)[i]);
    }
    assert(sense_of(ram, 5)[0] == own_sense(ram)[0]);
    assert(sense_of(ram, 5)[1] == own_sense(ram)[1]);
    assert(sense_of(ram, 5)[2] == own_sense(ram)[2]);
    assert(sense_of(ram, 5)[3] == own_sense(ram)[3]);
    assert(sense_of(ram, 5)[4] == own_sense(ram)[4]);
    assert(sense_of(ram, 5)[5] == own_sense(ram)[5]);
}

/// What is shown of the enemy `i` is whether it is there and, if so, how far across and down
/// it is from Mario, as shares of 255; of one that is not there, nothing but zeros.
pub proof fn enemies_are_shown_from_where_mario_is(ram: Seq<u8>, i: int)
    requires
        0 <= i < 5,
    ensures
        ({
            let shown = sense_of(ram, 5);
            let b = 6 + 3 * i;
            &&& shown.len() == 21
            &&& ram[0x0f + i] != 0 ==> {
                &&& shown[b].num == 1 && shown[b].den == 1
                &&& shown[b + 1].num == ram[0x87 + i] - ram[0xce] && shown[b + 1].den == 255
                &&& shown[b + 2].num == ram[0xcf + i] - ram[0xb5] && shown[b + 2].den == 255
            }
            &&& ram[0x0f + i] == 0 ==> shown[b].num == 0 && shown[b + 1].num == 0 && shown[b
                + 2].num == 0 && shown[b].den == 1 && shown[b + 1].den == 1 && shown[b + 2].den
                == 1
        }),
{
    lemma_enemy_sense(ram, 5, i);
}

/// The numbers of each enemy stand after those of the enemies before it.
proof fn lemma_enemy_sense(ram: Seq<u8>, n: nat, i: int)
    requires
        0 <= i < n,
    ensures
        sense_of(ram, n).len() == 6 + 3 * n,
        sense_of(ram, n)[6 + 3 * i] == enemy_sense(ram, i)[0],
        sense_of(ram, n)[6 + 3 * i + 1] == enemy_sense(ram, i)[1],
        sense_of(ram, n)[6 + 3 * i + 2] == enemy_sense(ram, i)[2],
    decreases n,
{
    lemma_sense_len(ram, (n - 1) as nat);
    if i < n - 1 {
        lemma_enemy_sense(ram, (n - 1) as nat, i);
    }
}

/// Six numbers are shown of Mario and three of each enemy.
proof fn lemma_sense_len(ram: Seq<u8>, n: nat)
    ensures
        sense_of(ram, n).len() == 6 + 3 * n,
    decreases n,
{
    if n > 0 {
        lemma_sense_len(ram, (n - 1) as nat);
    }
}

/// The outputs stand for the first two buttons and the last two.
pub proof fn outputs_stand_for_their_buttons()
    ensures
        BTN_INDICES@ == seq![0usize, 1, 6, 7],
{
    assert(BTN_INDICES@ =~= seq![0usize, 1, 6, 7]);
}

/// A frame in the level takes one frame off; progress beyond the furthest so far becomes the
/// furthest and ends the standstill, and anything else prolongs it, up to sixty frames.
pub proof fn frames_are_counted(e: Episode, ram: Seq<u8>)
    requires
        e.wf(),
        e.goes_on(),
        ram[0x772] == 3,
    ensures
        ({
            let after = episode_after(e, ram);
            let p = 256 * ram[0x71a] + ram[0x71c];
            &&& after.frames_left == e.frames_left - 1
            &&& p > e.last_progress ==> after.last_progress == p && after.stall == 0
                && !after.broken_off
            &&& p <= e.last_progress ==> after.last_progress == e.last_progress && after.stall
                == e.stall + 1 && (after.broken_off <==> e.stall + 1 >= 60)
        }),
{
}

/// A frame outside of the level ends the episode and changes nothing else but the count of
/// frames.
pub proof fn leaving_the_level_costs_a_frame(e: Episode, ram: Seq<u8>)
    requires
        e.goes_on(),
        ram[0x772] != 3,
    ensures
        ({
            let after = episode_after(e, ram);
            &&& after.broken_off
            &&& after.frames_left == e.frames_left - 1
            &&& after.last_progress == e.last_progress
            &&& after.stall == e.stall
        }),
{
}

/// An episode goes on exactly while frames are left and it has not been broken off.
pub proof fn episodes_go_on_while_they_can(e: Episode)
    ensures
        e.goes_on() <==> e.frames_left > 0 && !e.broken_off,
{
}

/// A pixel holds blue in its lowest byte, green above it and red above that.
pub proof fn pixels_hold_their_colours(bgra: Seq<u8>, i: int)
    ensures
        pixel(bgra, i) % 0x100 == bgra[4 * i],
        pixel(bgra, i) / 0x100 % 0x100 == bgra[4 * i + 1],
        pixel(bgra, i) / 0x1_0000 == bgra[4 * i + 2],
{
}

} // verus!
