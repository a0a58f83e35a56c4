//! A reset writes every setting once, and what it writes is read back from the file.

use vstd::prelude::*;
use crate::config::{entries, Config, Decoded};
use crate::config_laws::{no_old_keys, restored, says, told, written_values_are_restored};
use crate::ini::{file_assignments, rewritten};
use crate::ini_laws::{
    one_line, saved_values_are_read_back, values, writable, writable_key, writable_value,
};
use crate::text::{is_white, trim_end, trim_start};
use crate::values::ShownText;

verus! {

// ---------------------------------------------------------------------------
// The keys
// ---------------------------------------------------------------------------

/// The number of the character at a place, or zero beyond the text.
spec fn number_at(s: Seq<char>, i: int) -> int {
    if 0 <= i < s.len() {
        s[i] as int
    } else {
        0
    }
}

/// A number by which the keys are told apart: it is made of the length and four characters.
spec fn mark(s: Seq<char>) -> int {
    s.len() + 100 * number_at(s, 0) + 100_000 * number_at(s, 5) + 100_000_000 * number_at(
        s,
        s.len() - 1,
    ) + 100_000_000_000 * number_at(s, s.len() - 10)
}

/// Where the key with a mark stands.
spec fn place_of_mark(m: int) -> int {
    if m == 10411509811511 {
        0
    } else if m == 9711511011517 {
        1
    } else if m == 10411510011511 {
        2
    } else if m == 11510810811510 {
        3
    } else if m == 11511511411510 {
        4
    } else if m == 11710811411516 {
        5
    } else if m == 11910111211513 {
        6
    } else if m == 10311011507 {
        7
    } else if m == 9511510011514 {
        8
    } else if m == 10411510011519 {
        9
    } else if m == 9510109811519 {
        10
    } else if m == 10010110011515 {
        11
    } else if m == 10311509711517 {
        12
    } else if m == 11911409811513 {
        13
    } else if m == 9510109811514 {
        14
    } else if m == 9811509711519 {
        15
    } else if m == 11911509711513 {
        16
    } else if m == 10511410211516 {
        17
    } else if m == 11210010911517 {
        18
    } else if m == 11611610806 {
        19
    } else if m == 9710109511211 {
        20
    } else if m == 10810309511214 {
        21
    } else if m == 11410411409812 {
        22
    } else if m == 9710109711915 {
        23
    } else if m == 10810309711918 {
        24
    } else if m == 11410411111916 {
        25
    } else if m == 11911609711910 {
        26
    } else if m == 10112111211911 {
        27
    } else if m == 10112111111918 {
        28
    } else if m == 10109911909 {
        29
    } else if m == 10810109711914 {
        30
    } else if m == 11810109711914 {
        31
    } else if m == 11710111111916 {
        32
    } else if m == 9510111111918 {
        33
    } else if m == 11610111611916 {
        34
    } else if m == 10810111111920 {
        35
    } else if m == 11810111111920 {
        36
    } else if m == 11110411111915 {
        37
    } else if m == 11110111111915 {
        38
    } else if m == 11512111111917 {
        39
    } else if m == 10112111111924 {
        40
    } else if m == 11610311111918 {
        41
    } else if m == 11410411111922 {
        42
    } else if m == 9810311411912 {
        43
    } else if m == 9811210511912 {
        44
    } else if m == 9811609909810 {
        45
    } else if m == 12009511207 {
        46
    } else if m == 12109511207 {
        47
    } else if m == 10109711708 {
        48
    } else if m == 10112109511213 {
        49
    } else if m == 10112111409814 {
        50
    } else if m == 10810109510810 {
        51
    } else if m == 11810109511810 {
        52
    } else if m == 11710110109912 {
        53
    } else if m == 9510111009814 {
        54
    } else if m == 9511211009814 {
        55
    } else if m == 11610111209712 {
        56
    } else if m == 10810109511616 {
        57
    } else if m == 11810109511616 {
        58
    } else if m == 11110409511611 {
        59
    } else if m == 11110109511611 {
        60
    } else if m == 11512109511613 {
        61
    } else if m == 10112109511620 {
        62
    } else if m == 11610309511614 {
        63
    } else if m == 11410409511618 {
        64
    } else if m == 10310511608 {
        65
    } else if m == 11210310808 {
        66
    } else if m == 9911411609712 {
        67
    } else if m == 9711409510811 {
        68
    } else if m == 9711409511811 {
        69
    } else if m == 9710009711115 {
        70
    } else if m == 11010110510416 {
        71
    } else if m == 10011710510412 {
        72
    } else if m == 10300010005 {
        73
    } else if m == 10300010804 {
        74
    } else if m == 9910010411614 {
        75
    } else if m == 9510010411616 {
        76
    } else if m == 11010010411617 {
        77
    } else if m == 12009511607 {
        78
    } else if m == 12109511607 {
        79
    } else if m == 11111010011419 {
        80
    } else if m == 9910810411614 {
        81
    } else if m == 10111511811517 {
        82
    } else if m == 10111509510110 {
        83
    } else if m == 9711509510117 {
        84
    } else if m == 9511509510115 {
        85
    } else if m == 10312011609817 {
        86
    } else if m == 10312111609817 {
        87
    } else if m == 10312009510118 {
        88
    } else if m == 11611609510116 {
        89
    } else if m == 12110109510114 {
        90
    } else if m == 10912109510113 {
        91
    } else if m == 12112009510118 {
        92
    } else if m == 12112109510118 {
        93
    } else if m == 12111509510114 {
        94
    } else if m == 10110111411814 {
        95
    } else if m == 10110711411812 {
        96
    } else if m == 11410211411815 {
        97
    } else if m == 9809711411817 {
        98
    } else if m == 9511409510115 {
        99
    } else if m == 11111510411618 {
        100
    } else if m == 11211609511511 {
        101
    } else if m == 10111009510011 {
        102
    } else if m == 10411509711511 {
        103
    } else if m == 12012009706 {
        104
    } else if m == 12112109706 {
        105
    } else if m == 11010909511514 {
        106
    } else if m == 11011609511514 {
        107
    } else if m == 11911509511513 {
        108
    } else if m == 11911511509718 {
        109
    } else if m == 10511510809816 {
        110
    } else if m == 10111511511014 {
        111
    } else {
        -1
    }
}

/// A key of small letters and underscores.
spec fn plain_key(k: Seq<char>) -> bool {
    &&& k.len() > 0
    &&& forall|i: int| 0 <= i < k.len() ==> ('a' <= #[trigger] k[i] <= 'z' || k[i] == '_')
}

/// Every key of a list is plain and stands where its mark says.
spec fn in_place(v: Seq<(Seq<char>, ShownText)>) -> bool {
    forall|i: int|
        0 <= i < v.len() ==> plain_key((#[trigger] v[i]).0) && place_of_mark(mark(v[i].0)) == i
}

proof fn lemma_switches(w: Config, v: Seq<(Seq<char>, ShownText)>)
    requires
        v.len() == 0,
        in_place(v),
    ensures
        w.switches_values(v).len() == 8,
        in_place(w.switches_values(v)),
{
    let all = w.switches_values(v);
    assert(plain_key("show_bosses"@) && mark("show_bosses"@) == 10411509811511) by {
        reveal_strlit("show_bosses");
    }
    assert(all[0].0 == "show_bosses"@);
    assert(plain_key("show_nearest_boss"@) && mark("show_nearest_boss"@) == 9711511011517) by {
        reveal_strlit("show_nearest_boss");
    }
    assert(all[1].0 == "show_nearest_boss"@);
    assert(plain_key("show_deaths"@) && mark("show_deaths"@) == 10411510011511) by {
        reveal_strlit("show_deaths");
    }
    assert(all[2].0 == "show_deaths"@);
    assert(plain_key("show_level"@) && mark("show_level"@) == 11510810811510) by {
        reveal_strlit("show_level");
    }
    assert(all[3].0 == "show_level"@);
    assert(plain_key("show_runes"@) && mark("show_runes"@) == 11511511411510) by {
        reveal_strlit("show_runes");
    }
    assert(all[4].0 == "show_runes"@);
    assert(plain_key("show_runes_total"@) && mark("show_runes_total"@) == 11710811411516) by {
        reveal_strlit("show_runes_total");
    }
    assert(all[5].0 == "show_runes_total"@);
    assert(plain_key("show_playtime"@) && mark("show_playtime"@) == 11910111211513) by {
        reveal_strlit("show_playtime");
    }
    assert(all[6].0 == "show_playtime"@);
    assert(plain_key("show_ng"@) && mark("show_ng"@) == 10311011507) by {
        reveal_strlit("show_ng");
    }
    assert(all[7].0 == "show_ng"@);
    assert forall|i: int| 0 <= i < all.len() implies plain_key((#[trigger] all[i]).0)
        && place_of_mark(mark(all[i].0)) == i by {
        if i < 0 {
            assert(all[i] == v[i]);
        }
    }
}

proof fn lemma_totals(w: Config, v: Seq<(Seq<char>, ShownText)>)
    requires
        v.len() == 8,
        in_place(v),
    ensures
        w.totals_values(v).len() == 19,
        in_place(w.totals_values(v)),
{
    let all = w.totals_values(v);
    assert(plain_key("show_deathless"@) && mark("show_deathless"@) == 9511510011514) by {
        reveal_strlit("show_deathless");
    }
    assert(all[8].0 == "show_deathless"@);
    assert(plain_key("show_deaths_on_boss"@) && mark("show_deaths_on_boss"@) == 10411510011519) by {
        reveal_strlit("show_deaths_on_boss");
    }
    assert(all[9].0 == "show_deaths_on_boss"@);
    assert(plain_key("show_boss_kill_rate"@) && mark("show_boss_kill_rate"@) == 9510109811519) by {
        reveal_strlit("show_boss_kill_rate");
    }
    assert(all[10].0 == "show_boss_kill_rate"@);
    assert(plain_key("show_death_rate"@) && mark("show_death_rate"@) == 10010110011515) by {
        reveal_strlit("show_death_rate");
    }
    assert(all[11].0 == "show_death_rate"@);
    assert(plain_key("show_avg_attempts"@) && mark("show_avg_attempts"@) == 10311509711517) by {
        reveal_strlit("show_avg_attempts");
    }
    assert(all[12].0 == "show_avg_attempts"@);
    assert(plain_key("show_boss_bar"@) && mark("show_boss_bar"@) == 11911409811513) by {
        reveal_strlit("show_boss_bar");
    }
    assert(all[13].0 == "show_boss_bar"@);
    assert(plain_key("show_boss_name"@) && mark("show_boss_name"@) == 9510109811514) by {
        reveal_strlit("show_boss_name");
    }
    assert(all[14].0 == "show_boss_name"@);
    assert(plain_key("show_all_boss_names"@) && mark("show_all_boss_names"@) == 9811509711519) by {
        reveal_strlit("show_all_boss_names");
    }
    assert(all[15].0 == "show_all_boss_names"@);
    assert(plain_key("show_attempts"@) && mark("show_attempts"@) == 11911509711513) by {
        reveal_strlit("show_attempts");
    }
    assert(all[16].0 == "show_attempts"@);
    assert(plain_key("show_fight_timer"@) && mark("show_fight_timer"@) == 10511410211516) by {
        reveal_strlit("show_fight_timer");
    }
    assert(all[17].0 == "show_fight_timer"@);
    assert(plain_key("show_map_explored"@) && mark("show_map_explored"@) == 11210010911517) by {
        reveal_strlit("show_map_explored");
    }
    assert(all[18].0 == "show_map_explored"@);
    assert forall|i: int| 0 <= i < all.len() implies plain_key((#[trigger] all[i]).0)
        && place_of_mark(mark(all[i].0)) == i by {
        if i < 8 {
            assert(all[i] == v[i]);
        }
    }
}

proof fn lemma_frames(w: Config, v: Seq<(Seq<char>, ShownText)>)
    requires
        v.len() == 19,
        in_place(v),
    ensures
        w.frames_values(v).len() == 26,
        in_place(w.frames_values(v)),
{
    let all = w.frames_values(v);
    assert(plain_key("layout"@) && mark("layout"@) == 11611610806) by {
        reveal_strlit("layout");
    }
    assert(all[19].0 == "layout"@);
    assert(plain_key("panel_style"@) && mark("panel_style"@) == 9710109511211) by {
        reveal_strlit("panel_style");
    }
    assert(all[20].0 == "panel_style"@);
    assert(plain_key("panel_rounding"@) && mark("panel_rounding"@) == 10810309511214) by {
        reveal_strlit("panel_rounding");
    }
    assert(all[21].0 == "panel_rounding"@);
    assert(plain_key("border_width"@) && mark("border_width"@) == 11410411409812) by {
        reveal_strlit("border_width");
    }
    assert(all[22].0 == "border_width"@);
    assert(plain_key("web_panel_style"@) && mark("web_panel_style"@) == 9710109711915) by {
        reveal_strlit("web_panel_style");
    }
    assert(all[23].0 == "web_panel_style"@);
    assert(plain_key("web_panel_rounding"@) && mark("web_panel_rounding"@) == 10810309711918) by {
        reveal_strlit("web_panel_rounding");
    }
    assert(all[24].0 == "web_panel_rounding"@);
    assert(plain_key("web_border_width"@) && mark("web_border_width"@) == 11410411111916) by {
        reveal_strlit("web_border_width");
    }
    assert(all[25].0 == "web_border_width"@);
    assert forall|i: int| 0 <= i < all.len() implies plain_key((#[trigger] all[i]).0)
        && place_of_mark(mark(all[i].0)) == i by {
        if i < 19 {
            assert(all[i] == v[i]);
        }
    }
}

proof fn lemma_widget(w: Config, v: Seq<(Seq<char>, ShownText)>)
    requires
        v.len() == 26,
        in_place(v),
    ensures
        w.widget_values(v).len() == 35,
        in_place(w.widget_values(v)),
{
    let all = w.widget_values(v);
    assert(plain_key("web_layout"@) && mark("web_layout"@) == 11911609711910) by {
        reveal_strlit("web_layout");
    }
    assert(all[26].0 == "web_layout"@);
    assert(plain_key("web_opacity"@) && mark("web_opacity"@) == 10112111211911) by {
        reveal_strlit("web_opacity");
    }
    assert(all[27].0 == "web_opacity"@);
    assert(plain_key("web_border_opacity"@) && mark("web_border_opacity"@) == 10112111111918) by {
        reveal_strlit("web_border_opacity");
    }
    assert(all[28].0 == "web_border_opacity"@);
    assert(plain_key("web_scale"@) && mark("web_scale"@) == 10109911909) by {
        reveal_strlit("web_scale");
    }
    assert(all[29].0 == "web_scale"@);
    assert(plain_key("web_label_size"@) && mark("web_label_size"@) == 10810109711914) by {
        reveal_strlit("web_label_size");
    }
    assert(all[30].0 == "web_label_size"@);
    assert(plain_key("web_value_size"@) && mark("web_value_size"@) == 11810109711914) by {
        reveal_strlit("web_value_size");
    }
    assert(all[31].0 == "web_value_size"@);
    assert(plain_key("web_counter_size"@) && mark("web_counter_size"@) == 11710111111916) by {
        reveal_strlit("web_counter_size");
    }
    assert(all[32].0 == "web_counter_size"@);
    assert(plain_key("web_boss_name_size"@) && mark("web_boss_name_size"@) == 9510111111918) by {
        reveal_strlit("web_boss_name_size");
    }
    assert(all[33].0 == "web_boss_name_size"@);
    assert(plain_key("web_attempt_size"@) && mark("web_attempt_size"@) == 11610111611916) by {
        reveal_strlit("web_attempt_size");
    }
    assert(all[34].0 == "web_attempt_size"@);
    assert forall|i: int| 0 <= i < all.len() implies plain_key((#[trigger] all[i]).0)
        && place_of_mark(mark(all[i].0)) == i by {
        if i < 26 {
            assert(all[i] == v[i]);
        }
    }
}

proof fn lemma_widget_card(w: Config, v: Seq<(Seq<char>, ShownText)>)
    requires
        v.len() == 35,
        in_place(v),
    ensures
        w.widget_card_values(v).len() == 45,
        in_place(w.widget_card_values(v)),
{
    let all = w.widget_card_values(v);
    assert(plain_key("web_toast_label_size"@) && mark("web_toast_label_size"@) == 10810111111920) by {
        reveal_strlit("web_toast_label_size");
    }
    assert(all[35].0 == "web_toast_label_size"@);
    assert(plain_key("web_toast_value_size"@) && mark("web_toast_value_size"@) == 11810111111920) by {
        reveal_strlit("web_toast_value_size");
    }
    assert(all[36].0 == "web_toast_value_size"@);
    assert(plain_key("web_toast_width"@) && mark("web_toast_width"@) == 11110411111915) by {
        reveal_strlit("web_toast_width");
    }
    assert(all[37].0 == "web_toast_width"@);
    assert(plain_key("web_toast_style"@) && mark("web_toast_style"@) == 11110111111915) by {
        reveal_strlit("web_toast_style");
    }
    assert(all[38].0 == "web_toast_style"@);
    assert(plain_key("web_toast_opacity"@) && mark("web_toast_opacity"@) == 11512111111917) by {
        reveal_strlit("web_toast_opacity");
    }
    assert(all[39].0 == "web_toast_opacity"@);
    assert(plain_key("web_toast_border_opacity"@) && mark("web_toast_border_opacity"@) == 10112111111924) by {
        reveal_strlit("web_toast_border_opacity");
    }
    assert(all[40].0 == "web_toast_border_opacity"@);
    assert(plain_key("web_toast_rounding"@) && mark("web_toast_rounding"@) == 11610311111918) by {
        reveal_strlit("web_toast_rounding");
    }
    assert(all[41].0 == "web_toast_rounding"@);
    assert(plain_key("web_toast_border_width"@) && mark("web_toast_border_width"@) == 11410411111922) by {
        reveal_strlit("web_toast_border_width");
    }
    assert(all[42].0 == "web_toast_border_width"@);
    assert(plain_key("web_tracking"@) && mark("web_tracking"@) == 9810311411912) by {
        reveal_strlit("web_tracking");
    }
    assert(all[43].0 == "web_tracking"@);
    assert(plain_key("web_line_gap"@) && mark("web_line_gap"@) == 9811210511912) by {
        reveal_strlit("web_line_gap");
    }
    assert(all[44].0 == "web_line_gap"@);
    assert forall|i: int| 0 <= i < all.len() implies plain_key((#[trigger] all[i]).0)
        && place_of_mark(mark(all[i].0)) == i by {
        if i < 35 {
            assert(all[i] == v[i]);
        }
    }
}

proof fn lemma_panel(w: Config, v: Seq<(Seq<char>, ShownText)>)
    requires
        v.len() == 45,
        in_place(v),
    ensures
        w.panel_values(v).len() == 57,
        in_place(w.panel_values(v)),
{
    let all = w.panel_values(v);
    assert(plain_key("boss_count"@) && mark("boss_count"@) == 9811609909810) by {
        reveal_strlit("boss_count");
    }
    assert(all[45].0 == "boss_count"@);
    assert(plain_key("panel_x"@) && mark("panel_x"@) == 12009511207) by {
        reveal_strlit("panel_x");
    }
    assert(all[46].0 == "panel_x"@);
    assert(plain_key("panel_y"@) && mark("panel_y"@) == 12109511207) by {
        reveal_strlit("panel_y");
    }
    assert(all[47].0 == "panel_y"@);
    assert(plain_key("ui_scale"@) && mark("ui_scale"@) == 10109711708) by {
        reveal_strlit("ui_scale");
    }
    assert(all[48].0 == "ui_scale"@);
    assert(plain_key("panel_opacity"@) && mark("panel_opacity"@) == 10112109511213) by {
        reveal_strlit("panel_opacity");
    }
    assert(all[49].0 == "panel_opacity"@);
    assert(plain_key("border_opacity"@) && mark("border_opacity"@) == 10112111409814) by {
        reveal_strlit("border_opacity");
    }
    assert(all[50].0 == "border_opacity"@);
    assert(plain_key("label_size"@) && mark("label_size"@) == 10810109510810) by {
        reveal_strlit("label_size");
    }
    assert(all[51].0 == "label_size"@);
    assert(plain_key("value_size"@) && mark("value_size"@) == 11810109511810) by {
        reveal_strlit("value_size");
    }
    assert(all[52].0 == "value_size"@);
    assert(plain_key("counter_size"@) && mark("counter_size"@) == 11710110109912) by {
        reveal_strlit("counter_size");
    }
    assert(all[53].0 == "counter_size"@);
    assert(plain_key("boss_name_size"@) && mark("boss_name_size"@) == 9510111009814) by {
        reveal_strlit("boss_name_size");
    }
    assert(all[54].0 == "boss_name_size"@);
    assert(plain_key("boss_name_wrap"@) && mark("boss_name_wrap"@) == 9511211009814) by {
        reveal_strlit("boss_name_wrap");
    }
    assert(all[55].0 == "boss_name_wrap"@);
    assert(plain_key("attempt_size"@) && mark("attempt_size"@) == 11610111209712) by {
        reveal_strlit("attempt_size");
    }
    assert(all[56].0 == "attempt_size"@);
    assert forall|i: int| 0 <= i < all.len() implies plain_key((#[trigger] all[i]).0)
        && place_of_mark(mark(all[i].0)) == i by {
        if i < 45 {
            assert(all[i] == v[i]);
        }
    }
}

proof fn lemma_card(w: Config, v: Seq<(Seq<char>, ShownText)>)
    requires
        v.len() == 57,
        in_place(v),
    ensures
        w.card_values(v).len() == 67,
        in_place(w.card_values(v)),
{
    let all = w.card_values(v);
    assert(plain_key("toast_label_size"@) && mark("toast_label_size"@) == 10810109511616) by {
        reveal_strlit("toast_label_size");
    }
    assert(all[57].0 == "toast_label_size"@);
    assert(plain_key("toast_value_size"@) && mark("toast_value_size"@) == 11810109511616) by {
        reveal_strlit("toast_value_size");
    }
    assert(all[58].0 == "toast_value_size"@);
    assert(plain_key("toast_width"@) && mark("toast_width"@) == 11110409511611) by {
        reveal_strlit("toast_width");
    }
    assert(all[59].0 == "toast_width"@);
    assert(plain_key("toast_style"@) && mark("toast_style"@) == 11110109511611) by {
        reveal_strlit("toast_style");
    }
    assert(all[60].0 == "toast_style"@);
    assert(plain_key("toast_opacity"@) && mark("toast_opacity"@) == 11512109511613) by {
        reveal_strlit("toast_opacity");
    }
    assert(all[61].0 == "toast_opacity"@);
    assert(plain_key("toast_border_opacity"@) && mark("toast_border_opacity"@) == 10112109511620) by {
        reveal_strlit("toast_border_opacity");
    }
    assert(all[62].0 == "toast_border_opacity"@);
    assert(plain_key("toast_rounding"@) && mark("toast_rounding"@) == 11610309511614) by {
        reveal_strlit("toast_rounding");
    }
    assert(all[63].0 == "toast_rounding"@);
    assert(plain_key("toast_border_width"@) && mark("toast_border_width"@) == 11410409511618) by {
        reveal_strlit("toast_border_width");
    }
    assert(all[64].0 == "toast_border_width"@);
    assert(plain_key("tracking"@) && mark("tracking"@) == 10310511608) by {
        reveal_strlit("tracking");
    }
    assert(all[65].0 == "tracking"@);
    assert(plain_key("line_gap"@) && mark("line_gap"@) == 11210310808) by {
        reveal_strlit("line_gap");
    }
    assert(all[66].0 == "line_gap"@);
    assert forall|i: int| 0 <= i < all.len() implies plain_key((#[trigger] all[i]).0)
        && place_of_mark(mark(all[i].0)) == i by {
        if i < 57 {
            assert(all[i] == v[i]);
        }
    }
}

proof fn lemma_look(w: Config, v: Seq<(Seq<char>, ShownText)>)
    requires
        v.len() == 67,
        in_place(v),
    ensures
        w.look_values(v).len() == 75,
        in_place(w.look_values(v)),
{
    let all = w.look_values(v);
    assert(plain_key("accent_color"@) && mark("accent_color"@) == 9911411609712) by {
        reveal_strlit("accent_color");
    }
    assert(all[67].0 == "accent_color"@);
    assert(plain_key("label_color"@) && mark("label_color"@) == 9711409510811) by {
        reveal_strlit("label_color");
    }
    assert(all[68].0 == "label_color"@);
    assert(plain_key("value_color"@) && mark("value_color"@) == 9711409511811) by {
        reveal_strlit("value_color");
    }
    assert(all[69].0 == "value_color"@);
    assert(plain_key("overlay_enabled"@) && mark("overlay_enabled"@) == 9710009711115) by {
        reveal_strlit("overlay_enabled");
    }
    assert(all[70].0 == "overlay_enabled"@);
    assert(plain_key("hide_in_cutscene"@) && mark("hide_in_cutscene"@) == 11010110510416) by {
        reveal_strlit("hide_in_cutscene");
    }
    assert(all[71].0 == "hide_in_cutscene"@);
    assert(plain_key("hide_in_menu"@) && mark("hide_in_menu"@) == 10011710510412) by {
        reveal_strlit("hide_in_menu");
    }
    assert(all[72].0 == "hide_in_menu"@);
    assert(plain_key("debug"@) && mark("debug"@) == 10300010005) by {
        reveal_strlit("debug");
    }
    assert(all[73].0 == "debug"@);
    assert(plain_key("lang"@) && mark("lang"@) == 10300010804) by {
        reveal_strlit("lang");
    }
    assert(all[74].0 == "lang"@);
    assert forall|i: int| 0 <= i < all.len() implies plain_key((#[trigger] all[i]).0)
        && place_of_mark(mark(all[i].0)) == i by {
        if i < 67 {
            assert(all[i] == v[i]);
        }
    }
}

proof fn lemma_twitch(w: Config, v: Seq<(Seq<char>, ShownText)>)
    requires
        v.len() == 75,
        in_place(v),
    ensures
        w.twitch_values(v).len() == 82,
        in_place(w.twitch_values(v)),
{
    let all = w.twitch_values(v);
    assert(plain_key("twitch_enabled"@) && mark("twitch_enabled"@) == 9910010411614) by {
        reveal_strlit("twitch_enabled");
    }
    assert(all[75].0 == "twitch_enabled"@);
    assert(plain_key("twitch_client_id"@) && mark("twitch_client_id"@) == 9510010411616) by {
        reveal_strlit("twitch_client_id");
    }
    assert(all[76].0 == "twitch_client_id"@);
    assert(plain_key("twitch_notify_hud"@) && mark("twitch_notify_hud"@) == 11010010411617) by {
        reveal_strlit("twitch_notify_hud");
    }
    assert(all[77].0 == "twitch_notify_hud"@);
    assert(plain_key("toast_x"@) && mark("toast_x"@) == 12009511607) by {
        reveal_strlit("toast_x");
    }
    assert(all[78].0 == "toast_x"@);
    assert(plain_key("toast_y"@) && mark("toast_y"@) == 12109511607) by {
        reveal_strlit("toast_y");
    }
    assert(all[79].0 == "toast_y"@);
    assert(plain_key("rewards_notice_seen"@) && mark("rewards_notice_seen"@) == 11111010011419) by {
        reveal_strlit("rewards_notice_seen");
    }
    assert(all[80].0 == "rewards_notice_seen"@);
    assert(plain_key("twitch_channel"@) && mark("twitch_channel"@) == 9910810411614) by {
        reveal_strlit("twitch_channel");
    }
    assert(all[81].0 == "twitch_channel"@);
    assert forall|i: int| 0 <= i < all.len() implies plain_key((#[trigger] all[i]).0)
        && place_of_mark(mark(all[i].0)) == i by {
        if i < 75 {
            assert(all[i] == v[i]);
        }
    }
}

#[verifier::spinoff_prover]
proof fn lemma_nicknames(w: Config, v: Seq<(Seq<char>, ShownText)>)
    requires
        v.len() == 82,
        in_place(v),
    ensures
        w.nicknames_values(v).len() == 95,
        in_place(w.nicknames_values(v)),
{
    let all = w.nicknames_values(v);
    assert(plain_key("show_viewer_kills"@) && mark("show_viewer_kills"@) == 10111511811517) by {
        reveal_strlit("show_viewer_kills");
    }
    assert(all[82].0 == "show_viewer_kills"@);
    assert(plain_key("enemy_tags"@) && mark("enemy_tags"@) == 10111509510110) by {
        reveal_strlit("enemy_tags");
    }
    assert(all[83].0 == "enemy_tags"@);
    assert(plain_key("enemy_tags_bosses"@) && mark("enemy_tags_bosses"@) == 9711509510117) by {
        reveal_strlit("enemy_tags_bosses");
    }
    assert(all[84].0 == "enemy_tags_bosses"@);
    assert(plain_key("enemy_tags_mobs"@) && mark("enemy_tags_mobs"@) == 9511509510115) by {
        reveal_strlit("enemy_tags_mobs");
    }
    assert(all[85].0 == "enemy_tags_mobs"@);
    assert(plain_key("boss_tag_offset_x"@) && mark("boss_tag_offset_x"@) == 10312011609817) by {
        reveal_strlit("boss_tag_offset_x");
    }
    assert(all[86].0 == "boss_tag_offset_x"@);
    assert(plain_key("boss_tag_offset_y"@) && mark("boss_tag_offset_y"@) == 10312111609817) by {
        reveal_strlit("boss_tag_offset_y");
    }
    assert(all[87].0 == "boss_tag_offset_y"@);
    assert(plain_key("enemy_tag_offset_x"@) && mark("enemy_tag_offset_x"@) == 10312009510118) by {
        reveal_strlit("enemy_tag_offset_x");
    }
    assert(all[88].0 == "enemy_tag_offset_x"@);
    assert(plain_key("enemy_tag_height"@) && mark("enemy_tag_height"@) == 11611609510116) by {
        reveal_strlit("enemy_tag_height");
    }
    assert(all[89].0 == "enemy_tag_height"@);
    assert(plain_key("enemy_tag_size"@) && mark("enemy_tag_size"@) == 12110109510114) by {
        reveal_strlit("enemy_tag_size");
    }
    assert(all[90].0 == "enemy_tag_size"@);
    assert(plain_key("enemy_tag_say"@) && mark("enemy_tag_say"@) == 10912109510113) by {
        reveal_strlit("enemy_tag_say");
    }
    assert(all[91].0 == "enemy_tag_say"@);
    assert(plain_key("enemy_say_offset_x"@) && mark("enemy_say_offset_x"@) == 12112009510118) by {
        reveal_strlit("enemy_say_offset_x");
    }
    assert(all[92].0 == "enemy_say_offset_x"@);
    assert(plain_key("enemy_say_offset_y"@) && mark("enemy_say_offset_y"@) == 12112109510118) by {
        reveal_strlit("enemy_say_offset_y");
    }
    assert(all[93].0 == "enemy_say_offset_y"@);
    assert(plain_key("enemy_say_secs"@) && mark("enemy_say_secs"@) == 12111509510114) by {
        reveal_strlit("enemy_say_secs");
    }
    assert(all[94].0 == "enemy_say_secs"@);
    assert forall|i: int| 0 <= i < all.len() implies plain_key((#[trigger] all[i]).0)
        && place_of_mark(mark(all[i].0)) == i by {
        if i < 82 {
            assert(all[i] == v[i]);
        }
    }
}

proof fn lemma_viewers(w: Config, v: Seq<(Seq<char>, ShownText)>)
    requires
        v.len() == 95,
        in_place(v),
    ensures
        w.viewers_values(v).len() == 101,
        in_place(w.viewers_values(v)),
{
    let all = w.viewers_values(v);
    assert(plain_key("viewers_source"@) && mark("viewers_source"@) == 10110111411814) by {
        reveal_strlit("viewers_source");
    }
    assert(all[95].0 == "viewers_source"@);
    assert(plain_key("viewer_block"@) && mark("viewer_block"@) == 10110711411812) by {
        reveal_strlit("viewer_block");
    }
    assert(all[96].0 == "viewer_block"@);
    assert(plain_key("viewer_bots_off"@) && mark("viewer_bots_off"@) == 11410211411815) by {
        reveal_strlit("viewer_bots_off");
    }
    assert(all[97].0 == "viewer_bots_off"@);
    assert(plain_key("viewer_bots_extra"@) && mark("viewer_bots_extra"@) == 9809711411817) by {
        reveal_strlit("viewer_bots_extra");
    }
    assert(all[98].0 == "viewer_bots_extra"@);
    assert(plain_key("enemy_tag_color"@) && mark("enemy_tag_color"@) == 9511409510115) by {
        reveal_strlit("enemy_tag_color");
    }
    assert(all[99].0 == "enemy_tag_color"@);
    assert(plain_key("twitch_notify_secs"@) && mark("twitch_notify_secs"@) == 11111510411618) by {
        reveal_strlit("twitch_notify_secs");
    }
    assert(all[100].0 == "twitch_notify_secs"@);
    assert forall|i: int| 0 <= i < all.len() implies plain_key((#[trigger] all[i]).0)
        && place_of_mark(mark(all[i].0)) == i by {
        if i < 95 {
            assert(all[i] == v[i]);
        }
    }
}

proof fn lemma_spawn(w: Config, v: Seq<(Seq<char>, ShownText)>)
    requires
        v.len() == 101,
        in_place(v),
    ensures
        w.spawn_values(v).len() == 112,
        in_place(w.spawn_values(v)),
{
    let all = w.spawn_values(v);
    assert(plain_key("spawn_limit"@) && mark("spawn_limit"@) == 11211609511511) by {
        reveal_strlit("spawn_limit");
    }
    assert(all[101].0 == "spawn_limit"@);
    assert(plain_key("debug_spawn"@) && mark("debug_spawn"@) == 10111009510011) by {
        reveal_strlit("debug_spawn");
    }
    assert(all[102].0 == "debug_spawn"@);
    assert(plain_key("show_allies"@) && mark("show_allies"@) == 10411509711511) by {
        reveal_strlit("show_allies");
    }
    assert(all[103].0 == "show_allies"@);
    assert(plain_key("ally_x"@) && mark("ally_x"@) == 12012009706) by {
        reveal_strlit("ally_x");
    }
    assert(all[104].0 == "ally_x"@);
    assert(plain_key("ally_y"@) && mark("ally_y"@) == 12112109706) by {
        reveal_strlit("ally_y");
    }
    assert(all[105].0 == "ally_y"@);
    assert(plain_key("spawn_radius_m"@) && mark("spawn_radius_m"@) == 11010909511514) by {
        reveal_strlit("spawn_radius_m");
    }
    assert(all[106].0 == "spawn_radius_m"@);
    assert(plain_key("spawn_in_front"@) && mark("spawn_in_front"@) == 11011609511514) by {
        reveal_strlit("spawn_in_front");
    }
    assert(all[107].0 == "spawn_in_front"@);
    assert(plain_key("spawn_in_boss"@) && mark("spawn_in_boss"@) == 11911509511513) by {
        reveal_strlit("spawn_in_boss");
    }
    assert(all[108].0 == "spawn_in_boss"@);
    assert(plain_key("ally_spawn_in_boss"@) && mark("ally_spawn_in_boss"@) == 11911511509718) by {
        reveal_strlit("ally_spawn_in_boss");
    }
    assert(all[109].0 == "ally_spawn_in_boss"@);
    assert(plain_key("boss_list_radius"@) && mark("boss_list_radius"@) == 10511510809816) by {
        reveal_strlit("boss_list_radius");
    }
    assert(all[110].0 == "boss_list_radius"@);
    assert(plain_key("nearest_radius"@) && mark("nearest_radius"@) == 10111511511014) by {
        reveal_strlit("nearest_radius");
    }
    assert(all[111].0 == "nearest_radius"@);
    assert forall|i: int| 0 <= i < all.len() implies plain_key((#[trigger] all[i]).0)
        && place_of_mark(mark(all[i].0)) == i by {
        if i < 101 {
            assert(all[i] == v[i]);
        }
    }
}

proof fn lemma_writable_key(k: Seq<char>)
    requires
        plain_key(k),
    ensures
        writable_key(k),
{
    assert(one_line(k));
    assert(!is_white(k[0]));
    assert(!is_white(k[k.len() - 1]));
    assert(trim_start(k) == k);
    assert(trim_end(k) == k);
}

/// A reset writes no key twice and none that only old files have, and every key of it can
/// stand in the file.
pub proof fn no_key_is_written_twice(w: Config)
    ensures
        forall|i: int|
            0 <= i < w.shown_values().len() ==> (#[trigger] w.shown_values()[i]).0 != "title_size"@
                && w.shown_values()[i].0 != "spawn_block_in_boss"@,
        forall|i: int, j: int|
            0 <= i < j < w.shown_values().len() ==> (#[trigger] w.shown_values()[i]).0 != (
            #[trigger] w.shown_values()[j]).0,
        forall|i: int|
            0 <= i < w.shown_values().len() ==> writable_key((#[trigger] w.shown_values()[i]).0),
{
    let v0: Seq<(Seq<char>, ShownText)> = Seq::empty();
    lemma_switches(w, v0);
    let v1 = w.switches_values(v0);
    lemma_totals(w, v1);
    let v2 = w.totals_values(v1);
    lemma_frames(w, v2);
    let v3 = w.frames_values(v2);
    lemma_widget(w, v3);
    let v4 = w.widget_values(v3);
    lemma_widget_card(w, v4);
    let v5 = w.widget_card_values(v4);
    lemma_panel(w, v5);
    let v6 = w.panel_values(v5);
    lemma_card(w, v6);
    let v7 = w.card_values(v6);
    lemma_look(w, v7);
    let v8 = w.look_values(v7);
    lemma_twitch(w, v8);
    let v9 = w.twitch_values(v8);
    lemma_nicknames(w, v9);
    let v10 = w.nicknames_values(v9);
    lemma_viewers(w, v10);
    let v11 = w.viewers_values(v10);
    lemma_spawn(w, v11);
    let v12 = w.spawn_values(v11);
    let all = w.shown_values();
    assert(all == v12);
    assert forall|i: int, j: int| 0 <= i < j < all.len() implies (#[trigger] all[i]).0 != (
    #[trigger] all[j]).0 by {
        assert(place_of_mark(mark(all[i].0)) == i);
        assert(place_of_mark(mark(all[j].0)) == j);
    }
    assert forall|i: int| 0 <= i < all.len() implies writable_key((#[trigger] all[i]).0) by {
        lemma_writable_key(all[i].0);
    }
    assert(mark("title_size"@) == 11610109511610) by {
        reveal_strlit("title_size");
    }
    assert(mark("spawn_block_in_boss"@) == 9911509511519) by {
        reveal_strlit("spawn_block_in_boss");
    }
    assert forall|i: int| 0 <= i < all.len() implies (#[trigger] all[i]).0 != "title_size"@
        && all[i].0 != "spawn_block_in_boss"@ by {
        assert(place_of_mark(mark(all[i].0)) == i);
    }
}

// ---------------------------------------------------------------------------
// The file
// ---------------------------------------------------------------------------

/// The pairs that a reset saves: `texts` are the texts of the values, for numbers and
/// secrets as the host writes them.
pub open spec fn saved_pairs(w: Config, texts: Seq<Seq<char>>) -> Seq<(Seq<char>, Seq<char>)> {
    Seq::new(w.shown_values().len(), |i: int| (w.shown_values()[i].0, texts[i]))
}

/// The texts of the values: those that are texts already are written as they are, and all
/// fit on a line.
pub open spec fn texts_of_values(w: Config, texts: Seq<Seq<char>>) -> bool {
    &&& texts.len() == w.shown_values().len()
    &&& forall|i: int|
        0 <= i < texts.len() ==> writable_value(#[trigger] texts[i]) && match w.shown_values()[i].1 {
            ShownText::Text(s) => texts[i] == s,
            _ => true,
        }
}

/// The host reads the numbers and secrets that it wrote as they were.
pub open spec fn host_reads_back(
    w: Config,
    texts: Seq<Seq<char>>,
    file: Seq<char>,
    decoded: Seq<Decoded>,
) -> bool {
    &&& decoded.len() == file_assignments(file).len()
    &&& forall|k: int, i: int|
        0 <= k < decoded.len() && 0 <= i < w.shown_values().len()
            && #[trigger] file_assignments(file)[k] == (w.shown_values()[i].0, #[trigger] texts[i])
            ==> match w.shown_values()[i].1 {
            ShownText::Text(_) => true,
            ShownText::Number(n) => decoded[k].number == Some(n),
            ShownText::Secret(s) => decoded[k].revealed@ == s,
        }
}

proof fn lemma_values(a: Seq<(Seq<char>, Seq<char>)>, key: Seq<char>)
    ensures
        values(a, key).len() > 0 ==> exists|k: int| 0 <= k < a.len() && (#[trigger] a[k]).0 == key,
        forall|k: int|
            0 <= k < a.len() && (#[trigger] a[k]).0 == key ==> values(a, key).contains(a[k].1),
    decreases a.len(),
{
    if a.len() > 0 {
        let front = a.drop_last();
        lemma_values(front, key);
        let vs = values(front, key);
        let all = values(a, key);
        if a.last().0 == key {
            assert(a[a.len() - 1].0 == key);
            assert(all[vs.len() as int] == a.last().1);
        } else if all.len() > 0 {
            let k = choose|k: int| 0 <= k < front.len() && (#[trigger] front[k]).0 == key;
            assert(a[k].0 == key);
        }
        assert forall|k: int| 0 <= k < a.len() && (#[trigger] a[k]).0 == key implies all.contains(
            a[k].1,
        ) by {
            if k < front.len() {
                assert(front[k].0 == key);
                assert(vs.contains(front[k].1));
                let j = choose|j: int| 0 <= j < vs.len() && vs[j] == front[k].1;
                assert(all[j] == vs[j]);
            }
        }
    }
}

proof fn lemma_told(
    w: Config,
    texts: Seq<Seq<char>>,
    text: Seq<char>,
    decoded: Seq<Decoded>,
    i: int,
)
    requires
        texts_of_values(w, texts),
        host_reads_back(w, texts, rewritten(text, saved_pairs(w, texts)), decoded),
        0 <= i < w.shown_values().len(),
    ensures
        told(
            entries(rewritten(text, saved_pairs(w, texts)), decoded),
            w.shown_values()[i].0,
            w.shown_values()[i].1,
        ),
{
    reveal(told);
    let vs = w.shown_values();
    let pairs = saved_pairs(w, texts);
    let file = rewritten(text, pairs);
    let a = file_assignments(file);
    let es = entries(file, decoded);
    no_key_is_written_twice(w);
    assert(writable(pairs)) by {
        assert forall|i: int| 0 <= i < pairs.len() implies writable_key((#[trigger] pairs[i]).0)
            && writable_value(pairs[i].1) by {
            assert(writable_key(vs[i].0));
            assert(writable_value(texts[i]));
        }
        assert forall|i: int, j: int| 0 <= i < j < pairs.len() implies (#[trigger] pairs[i]).0 != (
        #[trigger] pairs[j]).0 by {
            assert(vs[i].0 != vs[j].0);
        }
    }
    saved_values_are_read_back(text, pairs, i);
    let key = vs[i].0;
    assert(pairs[i] == (key, texts[i]));
    lemma_values(a, key);
    let k = choose|k: int| 0 <= k < a.len() && (#[trigger] a[k]).0 == key;
    assert(es[k].key == key);
    assert forall|k: int| 0 <= k < es.len() && (#[trigger] es[k]).key == key implies says(
        es[k],
        vs[i].1,
    ) by {
        assert(a[k].0 == key);
        assert(values(a, key).contains(a[k].1));
        let j = choose|j: int| 0 <= j < values(a, key).len() && values(a, key)[j] == a[k].1;
        assert(a[k].1 == texts[i]);
        assert(a[k] == (vs[i].0, texts[i]));
        assert(writable_value(texts[i]));
    }
}

/// A reset is read back from the file it was saved to, whatever the file said before and
/// whatever the settings are when it is read: every value that the settings window can
/// change is as the reset wrote it. Only a line with a key of old files could still
/// change that.
pub proof fn a_reset_is_read_back(
    w: Config,
    before: Config,
    c: Config,
    text: Seq<char>,
    texts: Seq<Seq<char>>,
    decoded: Seq<Decoded>,
    names: Seq<Seq<char>>,
)
    requires
        texts_of_values(w, texts),
        host_reads_back(w, texts, rewritten(text, saved_pairs(w, texts)), decoded),
        no_old_keys(entries(rewritten(text, saved_pairs(w, texts)), decoded)),
        c.follows(before, entries(rewritten(text, saved_pairs(w, texts)), decoded), names),
    ensures
        restored(c, w),
{
    let es = entries(rewritten(text, saved_pairs(w, texts)), decoded);
    let vs = w.shown_values();
    assert forall|i: int| 0 <= i < vs.len() implies told(es, (#[trigger] vs[i]).0, vs[i].1) by {
        lemma_told(w, texts, text, decoded, i);
    }
    written_values_are_restored(c, w, before, es, names);
}

} // verus!
