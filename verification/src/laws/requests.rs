//! What the sources ask for, told from their settings.

use vstd::prelude::*;

use crate::date::{iso, Date};
use crate::i18n::{fallback_of, locale_of};
use crate::json::JsonView;
use crate::laws::documents::{holds, lacks, lemma_settings_read};
use crate::source::{BuiltIn, Source, SourceSettings};
use crate::sources::bing::{archive_url, index_of, market_of, split_credit};
use crate::sources::europeana::{
    encoded_byte, encoded_bytes, percent_encoded, search_url,
};
use crate::sources::nasa::apod_url;
use crate::sources::picsum::{effects_of, page_url, size_of};
use crate::sources::spotlight::{country_for, full_locale, locale_for, selection_url};
use crate::sources::wikimedia::{potd_url, width_of};
use crate::text::{decimal, free_of, is_space, lower, replace_char, split, trim, upper};

verus! {

/// A number in the settings.
pub open spec fn number_set(settings: &SourceSettings, key: Seq<char>, n: i64) -> bool {
    holds(settings.0@, key, JsonView::Int(n as int))
}

/// A text in the settings.
pub open spec fn text_set(settings: &SourceSettings, key: Seq<char>, s: Seq<char>) -> bool {
    holds(settings.0@, key, JsonView::Str(s))
}

/// A switch in the settings.
pub open spec fn flag_set(settings: &SourceSettings, key: Seq<char>, b: bool) -> bool {
    holds(settings.0@, key, JsonView::Bool(b))
}

/// Nothing under this key.
pub open spec fn unset(settings: &SourceSettings, key: Seq<char>) -> bool {
    lacks(settings.0@, key)
}

proof fn lemma_number(settings: &SourceSettings, key: Seq<char>, n: i64, default: i64)
    ensures
        number_set(settings, key, n) ==> settings.i64_at(key, default) == n,
        unset(settings, key) ==> settings.i64_at(key, default) == default,
{
    lemma_settings_read(
        settings,
        key,
        n,
        false,
        Seq::empty(),
        default,
        false,
        Seq::empty(),
    );
}

proof fn lemma_text(settings: &SourceSettings, key: Seq<char>, s: Seq<char>, default: Seq<char>)
    ensures
        text_set(settings, key, s) ==> settings.str_at(key, default) == s,
        unset(settings, key) ==> settings.str_at(key, default) == default,
{
    lemma_settings_read(settings, key, 0, false, s, 0, false, default);
}

proof fn lemma_flag(settings: &SourceSettings, key: Seq<char>, b: bool, default: bool)
    ensures
        flag_set(settings, key, b) ==> settings.bool_at(key, default) == b,
        unset(settings, key) ==> settings.bool_at(key, default) == default,
{
    lemma_settings_read(settings, key, 0, b, Seq::empty(), 0, default, Seq::empty());
}

/// The ids by which the configuration, the directories and the bus name the
/// sources.
pub proof fn lemma_ids()
    ensures
        BuiltIn::Bing.spec_id() == "bing"@,
        BuiltIn::Spotlight.spec_id() == "spotlight"@,
        BuiltIn::Nasa.spec_id() == "nasa"@,
        BuiltIn::Wikimedia.spec_id() == "wikimedia"@,
        BuiltIn::EarthView.spec_id() == "earthview"@,
        BuiltIn::Picsum.spec_id() == "picsum"@,
        BuiltIn::Europeana.spec_id() == "europeana"@,
{
}

/// Bing is asked for the image of as many days ago as the setting says: for every
/// number from 0 to 7 just that one, and for one outside the nearest of them.
pub proof fn lemma_bing_asks_for_index(settings: &SourceSettings, i: i64)
    ensures
        number_set(settings, "index"@, i) && 0 <= i <= 7 ==> index_of(settings) == i,
        number_set(settings, "index"@, i) && i < 0 ==> index_of(settings) == 0,
        number_set(settings, "index"@, i) && i > 7 ==> index_of(settings) == 7,
        unset(settings, "index"@) ==> index_of(settings) == 0,
        0 <= settings.i64_at("index"@, 0) <= 7 ==> index_of(settings) == settings.i64_at(
            "index"@,
            0,
        ),
{
    lemma_number(settings, "index"@, i, 0);
}

/// The address that Bing is asked under holds the index and the market of the
/// settings, in that order.
pub proof fn lemma_bing_address(
    settings: &SourceSettings,
    system: Seq<char>,
    i: i64,
    market: Seq<char>,
)
    requires
        number_set(settings, "index"@, i),
        0 <= i <= 7,
        text_set(settings, "mkt"@, market),
        market.len() > 0,
        market != "auto"@,
    ensures
        archive_url(settings, system) == "https://www.bing.com/HPImageArchive.aspx"@
            + "?format=js&idx="@ + decimal(i as nat) + "&n=1&mkt="@ + market,
{
    lemma_bing_asks_for_index(settings, i);
    lemma_text(settings, "mkt"@, market, "auto"@);
    reveal_strlit("");
}

/// Two requests to Bing that differ in the index differ.
pub proof fn lemma_bing_indices_apart(
    a: &SourceSettings,
    b: &SourceSettings,
    system: Seq<char>,
    i: i64,
    j: i64,
    market: Seq<char>,
)
    requires
        number_set(a, "index"@, i),
        number_set(b, "index"@, j),
        text_set(a, "mkt"@, market),
        text_set(b, "mkt"@, market),
        market.len() > 0,
        market != "auto"@,
        0 <= i < j <= 7,
    ensures
        archive_url(a, system) != archive_url(b, system),
{
    lemma_bing_address(a, system, i, market);
    lemma_bing_address(b, system, j, market);
    let head = "https://www.bing.com/HPImageArchive.aspx"@ + "?format=js&idx="@;
    let x = archive_url(a, system);
    let y = archive_url(b, system);
    let at = head.len() as int;
    assert(x[at] == decimal(i as nat)[0]);
    assert(y[at] == decimal(j as nat)[0]);
}

/// The market of the settings is the one that is asked for. The automatic one is
/// the system's locale, where that has a region.
pub proof fn lemma_market(value: Seq<char>, system: Seq<char>)
    ensures
        value.len() > 0 && value != "auto"@ ==> market_of(value, system) == value,
        system.contains('-') ==> market_of("auto"@, system) == system && market_of(
            Seq::empty(),
            system,
        ) == system,
{
    reveal_strlit("");
    assert(""@ =~= Seq::<char>::empty());
}

/// A locale without a region gets one: the Chinese ones China, all others the
/// United States.
pub proof fn lemma_region_added(system: Seq<char>)
    requires
        free_of(system, '-'),
    ensures
        full_locale(system) == "zh-CN"@ || full_locale(system) == "en-US"@,
        full_locale(system) == "zh-CN"@ <==> (system == "zh"@ || system == "yue"@ || system
            == "lzh"@ || system == "bo"@),
        market_of("auto"@, system) == full_locale(system),
        fallback_of(system).1 == (if full_locale(system) == "zh-CN"@ {
            "CN"@
        } else {
            "US"@
        }),
{
    reveal_strlit("zh-CN");
    reveal_strlit("en-US");
    lemma_unsplit(system, '-');
    assert("zh-CN"@[0] != "en-US"@[0]);
    if system.contains('-') {
        let k = choose|k: int| 0 <= k < system.len() && system[k] == '-';
        assert(system[k] != '-');
    }
}

/// A text without the separator is one piece.
pub proof fn lemma_unsplit(s: Seq<char>, sep: char)
    requires
        free_of(s, sep),
    ensures
        split(s, sep) == seq![s],
    decreases s.len(),
{
    if s.len() > 0 {
        let t = s.drop_last();
        assert forall|i: int| 0 <= i < t.len() implies #[trigger] t[i] != sep by {
            assert(s[i] == t[i]);
        }
        lemma_unsplit(t, sep);
        assert(s =~= t.push(s.last()));
        assert(split(s, sep) =~= seq![s]);
    } else {
        assert(split(s, sep) =~= seq![s]);
    }
}

/// Two parts with the separator between them are split into the two.
pub proof fn lemma_split_two(a: Seq<char>, b: Seq<char>, sep: char)
    requires
        free_of(a, sep),
        free_of(b, sep),
    ensures
        split(a + seq![sep] + b, sep) == seq![a, b],
{
    let head = a + seq![sep];
    assert(head.drop_last() =~= a);
    lemma_unsplit(a, sep);
    assert(split(head, sep) =~= seq![a, Seq::<char>::empty()]);
    crate::text::lemma_split_append(head, b, sep);
    assert(Seq::<char>::empty() + b =~= b);
    assert(split(head + b, sep) =~= seq![a, b]);
}

/// NASA is asked with the key and the resolution of the settings; without a key
/// with the one for trials.
pub proof fn lemma_nasa_address(settings: &SourceSettings, key: Seq<char>, hd: bool)
    ensures
        text_set(settings, "api_key"@, key) && flag_set(settings, "hd"@, hd) ==> apod_url(settings)
            == "https://api.nasa.gov/planetary/apod"@ + "?api_key="@ + key + (if hd {
            "&hd=true"@
        } else {
            "&hd=false"@
        }),
        unset(settings, "api_key"@) && unset(settings, "hd"@) ==> apod_url(settings)
            == "https://api.nasa.gov/planetary/apod"@ + "?api_key="@ + "DEMO_KEY"@ + "&hd=true"@,
{
    lemma_text(settings, "api_key"@, key, "DEMO_KEY"@);
    lemma_flag(settings, "hd"@, hd, true);
}

/// Wikimedia is asked for the picture of the day, in the width of the settings
/// where that is from 640 to 3840, else in the nearest such width.
pub proof fn lemma_wikimedia_address(settings: &SourceSettings, date: Date, w: i64)
    ensures
        number_set(settings, "width"@, w) && 640 <= w <= 3840 ==> width_of(settings) == w
            && potd_url(settings, date) == "https://commons.wikimedia.org/w/api.php"@
            + "?action=query&format=json&generator=images&titles=Template:Potd/"@ + iso(date)
            + "&prop=imageinfo&iiprop=url|extmetadata&iiurlwidth="@ + decimal(w as nat),
        number_set(settings, "width"@, w) && w < 640 ==> width_of(settings) == 640,
        number_set(settings, "width"@, w) && w > 3840 ==> width_of(settings) == 3840,
        unset(settings, "width"@) ==> width_of(settings) == 1920,
{
    lemma_number(settings, "width"@, w, 1920);
}

/// Spotlight is asked for the country and the locale of the settings.
pub proof fn lemma_spotlight_address(
    settings: &SourceSettings,
    system: Seq<char>,
    country: Seq<char>,
    locale: Seq<char>,
)
    requires
        text_set(settings, "country"@, country),
        country.len() > 0,
        country != "auto"@,
        text_set(settings, "locale"@, locale),
        locale.len() > 0,
        locale != "auto"@,
    ensures
        country_for(settings, system) == country,
        locale_for(settings, system) == locale,
        selection_url(country, locale) == "https://fd.api.iris.microsoft.com/v4/api/selection"@
            + "?placement="@ + "88000820"@ + "&bcnt=1&country="@ + country + "&fmt=json&locale="@
            + locale,
{
    lemma_text(settings, "country"@, country, "auto"@);
    lemma_text(settings, "locale"@, locale, "auto"@);
    reveal_strlit("");
}

/// By itself Spotlight follows the system's locale: its country is the region
/// in capital letters, its locale the whole.
pub proof fn lemma_spotlight_follows_system(
    settings: &SourceSettings,
    lang: Seq<char>,
    region: Seq<char>,
)
    requires
        unset(settings, "country"@) || text_set(settings, "country"@, "auto"@),
        unset(settings, "locale"@) || text_set(settings, "locale"@, "auto"@),
        free_of(lang, '-'),
        free_of(region, '-'),
        region.len() > 0,
    ensures
        country_for(settings, lang + seq!['-'] + region) == upper(region),
        locale_for(settings, lang + seq!['-'] + region) == lang + seq!['-'] + region,
{
    let system = lang + seq!['-'] + region;
    lemma_text(settings, "country"@, "auto"@, "auto"@);
    lemma_text(settings, "locale"@, "auto"@, "auto"@);
    lemma_split_two(lang, region, '-');
    assert(system[lang.len() as int] == '-');
}

/// Without a region the country is that of the fallback.
pub proof fn lemma_spotlight_without_region(settings: &SourceSettings, lang: Seq<char>)
    requires
        unset(settings, "country"@) || text_set(settings, "country"@, "auto"@),
        free_of(lang, '-'),
    ensures
        country_for(settings, lang) == (if lang == "zh"@ || lang == "yue"@ || lang == "lzh"@ || lang
            == "bo"@ {
            "CN"@
        } else {
            "US"@
        }),
{
    lemma_text(settings, "country"@, "auto"@, "auto"@);
    lemma_unsplit(lang, '-');
}

/// A locale name is a language in small letters and, where the name has one, a
/// region in capitals behind a hyphen, whether the name has `_` or `-`.
pub proof fn lemma_locale_shape(lang: Seq<char>, region: Seq<char>, sep: char)
    requires
        free_of(lang, '-') && free_of(lang, '_'),
        free_of(region, '-') && free_of(region, '_'),
        sep == '-' || sep == '_',
    ensures
        region.len() > 0 ==> locale_of(lang + seq![sep] + region) == lower(lang) + seq!['-'] + upper(
            region,
        ),
        locale_of(lang) == lower(lang),
        locale_of(lang + seq![sep]) == lower(lang),
{
    lemma_nothing_replaced(lang);
    lemma_nothing_replaced(region);
    let name = lang + seq![sep] + region;
    assert(replace_char(name, '_', '-') =~= lang + seq!['-'] + region) by {
        assert forall|i: int| 0 <= i < name.len() implies #[trigger] replace_char(
            name,
            '_',
            '-',
        )[i] == (lang + seq!['-'] + region)[i] by {
            if i < lang.len() {
                assert(name[i] == lang[i]);
            } else if i > lang.len() {
                assert(name[i] == region[i - lang.len() - 1]);
            }
        }
    }
    lemma_split_two(lang, region, '-');
    lemma_unsplit(lang, '-');
    let e = Seq::<char>::empty();
    lemma_split_two(lang, e, '-');
    assert(lang + seq!['-'] + e =~= lang + seq!['-']);
    let short = lang + seq![sep];
    assert(replace_char(short, '_', '-') =~= lang + seq!['-']) by {
        assert forall|i: int| 0 <= i < short.len() implies #[trigger] replace_char(
            short,
            '_',
            '-',
        )[i] == (lang + seq!['-'])[i] by {
            if i < lang.len() {
                assert(short[i] == lang[i]);
            }
        }
    }
}

proof fn lemma_nothing_replaced(s: Seq<char>)
    requires
        free_of(s, '_'),
    ensures
        replace_char(s, '_', '-') == s,
{
    assert(replace_char(s, '_', '-') =~= s);
}

/// Lorem Picsum is asked for a page of a hundred.
pub proof fn lemma_picsum_page(page: nat)
    ensures
        page_url(page as int) == "https://picsum.photos/v2/list"@ + "?page="@ + decimal(page)
            + "&limit=100"@,
{
}

/// The size of the settings is the one that is asked for, each side by itself;
/// a side that is not set, or not above 0, is that of a full-HD screen.
pub proof fn lemma_picsum_size(settings: &SourceSettings, w: i64, h: i64)
    ensures
        number_set(settings, "width"@, w) && w > 0 ==> size_of(settings).0 == w,
        number_set(settings, "height"@, h) && h > 0 ==> size_of(settings).1 == h,
        number_set(settings, "width"@, w) && w <= 0 ==> size_of(settings).0 == 1920,
        number_set(settings, "height"@, h) && h <= 0 ==> size_of(settings).1 == 1080,
        unset(settings, "width"@) ==> size_of(settings).0 == 1920,
        unset(settings, "height"@) ==> size_of(settings).1 == 1080,
{
    lemma_number(settings, "width"@, w, 0);
    lemma_number(settings, "height"@, h, 0);
}

/// An effect is asked for where it is switched on, and not where it is off.
pub proof fn lemma_picsum_effects(grayscale: bool, blur: bool)
    ensures
        effects_of(false, false).len() == 0,
        effects_of(true, false) == "?grayscale"@,
        effects_of(false, true) == "?blur"@,
        effects_of(true, true) == "?grayscale"@ + "&blur"@,
{
    reveal_strlit("");
    reveal_strlit("?grayscale");
    reveal_strlit("&blur");
    reveal_strlit("?grayscale&blur");
    assert("?grayscale"@ + "&blur"@ =~= "?grayscale&blur"@);
}

/// Europeana is asked with the key and the words of the settings, without the
/// whitespace round them, percent-encoded; where they are blank, with the key
/// for trials and the words for paintings.
pub proof fn lemma_europeana_address(key: Seq<char>, query: Seq<char>)
    ensures
        ({
            let tail =
                "&sort=random&rows=30&profile=minimal&reusability=open&media=true&completeness="@;
            let end =
                "&collection=art&type=IMAGE&img_color=true&img_size=extra_large&img_ratio=landscape"@;
            let k = if trim(key).len() > 0 {
                trim(key)
            } else {
                "api2demo"@
            };
            let q = if trim(query).len() > 0 {
                trim(query)
            } else {
                "(painting OR watercolor OR canvas OR artwork) NOT photograph NOT manuscript NOT print NOT book"@
            };
            search_url(key, query) == "https://api.europeana.eu/record/v2/search.json"@ + "?wskey="@
                + percent_encoded(k) + "&query="@ + percent_encoded(q) + tail + percent_encoded(
                "[1 TO 10]"@,
            ) + end
        }),
{
}

/// Letters, digits and `-_.~` are kept by the encoding; every other byte becomes
/// `%` and its two hexadecimal digits, in capitals.
pub proof fn lemma_encoded_byte(b: u8)
    ensures
        ({
            let c = b as char;
            let kept = 'A' <= c <= 'Z' || 'a' <= c <= 'z' || '0' <= c <= '9' || c == '-' || c == '_'
                || c == '.' || c == '~';
            &&& kept ==> encoded_byte(b) == seq![c]
            &&& !kept ==> encoded_byte(b).len() == 3 && encoded_byte(b)[0] == '%' && hex_value(
                encoded_byte(b)[1],
            ) * 16 + hex_value(encoded_byte(b)[2]) == b && capital_hex(encoded_byte(b)[1])
                && capital_hex(encoded_byte(b)[2])
        }),
{
}

/// What a hexadecimal digit in capitals stands for.
pub open spec fn hex_value(c: char) -> int {
    if '0' <= c <= '9' {
        c as int - '0' as int
    } else {
        c as int - 'A' as int + 10
    }
}

pub open spec fn capital_hex(c: char) -> bool {
    '0' <= c <= '9' || 'A' <= c <= 'F'
}

/// Bytes are encoded one after the other.
pub proof fn lemma_encoded_in_order(a: Seq<u8>, b: Seq<u8>)
    ensures
        encoded_bytes(a + b) == encoded_bytes(a) + encoded_bytes(b),
        encoded_bytes(Seq::empty()).len() == 0,
    decreases b.len(),
{
    if b.len() == 0 {
        assert(a + b =~= a);
        assert(encoded_bytes(a) + encoded_bytes(b) =~= encoded_bytes(a));
    } else {
        lemma_encoded_in_order(a, b.drop_last());
        assert((a + b).drop_last() =~= a + b.drop_last());
        assert(encoded_bytes(a + b) =~= encoded_bytes(a) + encoded_bytes(b));
    }
}

/// One byte is encoded by itself.
pub proof fn lemma_encoded_one(b: u8)
    ensures
        encoded_bytes(seq![b]) == encoded_byte(b),
{
    reveal_with_fuel(encoded_bytes, 2);
    assert(seq![b].drop_last() =~= Seq::<u8>::empty());
    assert(encoded_bytes(seq![b]) =~= encoded_byte(b));
}

/// A credit in parentheses moves to a line of its own, trimmed, and what stands
/// behind it follows on that line. A caption without parentheses stays.
pub proof fn lemma_credit_on_own_line(head: Seq<char>, credit: Seq<char>, tail: Seq<char>)
    requires
        free_of(head, '('),
        free_of(credit, ')'),
        head.len() > 0 ==> !is_space(head[0]) && !is_space(head.last()),
        credit.len() > 0 ==> !is_space(credit[0]) && !is_space(credit.last()),
        tail.len() > 0 ==> !is_space(tail[0]),
    ensures
        split_credit(head) == head,
        tail.len() == 0 ==> split_credit(
            head + seq![' ', '('] + credit + seq![')'],
        ) == head + seq!['\n'] + credit,
        tail.len() > 0 ==> split_credit(
            head + seq![' ', '('] + credit + seq![')', ' '] + tail,
        ) == head + seq!['\n'] + credit + seq![' '] + tail,
{
    let e = Seq::<char>::empty();
    crate::laws::texts::lemma_first_place(head, '(', e, 0);
    lemma_credit(head, credit, e, e);
    assert(head + seq![' ', '('] + credit + seq![')'] + e + e =~= head + seq![' ', '('] + credit
        + seq![')']);
    lemma_credit(head, credit, seq![' '], tail);
    assert(head + seq![' ', '('] + credit + seq![')'] + seq![' '] + tail =~= head + seq![' ', '(']
        + credit + seq![')', ' '] + tail);
}

proof fn lemma_credit(head: Seq<char>, credit: Seq<char>, gap: Seq<char>, tail: Seq<char>)
    requires
        free_of(head, '('),
        free_of(credit, ')'),
        head.len() > 0 ==> !is_space(head.last()),
        credit.len() > 0 ==> !is_space(credit[0]) && !is_space(credit.last()),
        crate::laws::texts::blank(gap),
        tail.len() > 0 ==> !is_space(tail[0]),
    ensures
        split_credit(head + seq![' ', '('] + credit + seq![')'] + gap + tail) == head + seq!['\n']
            + credit + (if tail.len() == 0 {
            Seq::empty()
        } else {
            seq![' '] + tail
        }),
{
    let e = Seq::<char>::empty();
    let before = head + seq![' '];
    let behind = gap + tail;
    let raw = head + seq![' ', '('] + credit + seq![')'] + gap + tail;
    assert(raw =~= before + seq!['('] + (credit + seq![')'] + behind));
    assert forall|j: int| 0 <= j < before.len() implies #[trigger] before[j] != '(' by {
        if j < head.len() {
            assert(before[j] == head[j]);
        }
    }
    crate::laws::texts::lemma_first_place(before, '(', credit + seq![')'] + behind, 0);
    let open = before.len() as int;
    let close = open + 1 + credit.len();
    lemma_find_from(raw, ')', open, close);
    assert(raw.take(open) =~= before);
    assert(before.drop_last() =~= head);
    reveal_with_fuel(crate::text::trim_end, 2);
    assert(crate::text::trim_end(before) == head);
    assert(raw.subrange(open + 1, close) =~= credit);
    crate::laws::texts::lemma_trim_takes_ends(e, credit, e);
    assert(e + credit + e =~= credit);
    assert(raw.skip(close + 1) =~= behind);
    lemma_gap_taken(gap, tail);
    assert(split_credit(raw) =~= head + seq!['\n'] + credit + (if tail.len() == 0 {
        Seq::empty()
    } else {
        seq![' '] + tail
    }));
}

proof fn lemma_gap_taken(gap: Seq<char>, tail: Seq<char>)
    requires
        crate::laws::texts::blank(gap),
        tail.len() > 0 ==> !is_space(tail[0]),
    ensures
        crate::text::trim_start(gap + tail) == tail,
    decreases gap.len(),
{
    if gap.len() == 0 {
        assert(gap + tail =~= tail);
    } else {
        let t = gap + tail;
        assert(t[0] == gap[0]);
        assert(t.skip(1) =~= gap.skip(1) + tail);
        assert(crate::laws::texts::blank(gap.skip(1)));
        lemma_gap_taken(gap.skip(1), tail);
    }
}

proof fn lemma_find_from(s: Seq<char>, c: char, from: int, at: int)
    requires
        0 <= from <= at < s.len(),
        s[at] == c,
        forall|j: int| from <= j < at ==> #[trigger] s[j] != c,
    ensures
        crate::text::find_char(s, c, from) == at,
    decreases at - from,
{
    if from < at {
        lemma_find_from(s, c, from + 1, at);
    }
}

} // verus!
