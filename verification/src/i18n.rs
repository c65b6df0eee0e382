//! User-facing strings in the two supported languages, the persisted
//! language preference, and the decisions the user interface delegates to
//! the library: which table a language code selects, and which message a
//! half-filled request is refused with.

use vstd::prelude::*;
use crate::decimal::{all_digits, dec_value, digit_of, lemma_dec_take_step, lemma_dec_value_nonneg};

verus! {

/// Every user-facing string of the tool, in one language.
pub struct Translations {
    pub window_title: String,
    pub encrypt_tab: String,
    pub decrypt_tab: String,
    pub input_file_label: String,
    pub output_file_label: String,
    pub browse_button: String,
    pub seed_label: String,
    pub seed_tooltip: String,
    pub chunk_size_label: String,
    pub unit_label: String,
    pub kilobyte: String,
    pub megabyte: String,
    pub gigabyte: String,
    pub encrypt_button: String,
    pub decrypt_button: String,
    pub progress_label: String,
    pub split_large_files: String,
    pub language_label: String,
    pub english: String,
    pub turkish: String,
    pub success_encrypt: String,
    pub success_decrypt: String,
    pub error_no_input: String,
    pub error_no_output: String,
    pub error_no_seed: String,
    pub error_processing: String,
    pub error_title: String,
    pub success_title: String,
    pub large_file_prompt: String,
    pub yes: String,
    pub no: String,
    pub cancel: String,
    pub file_dialog_filter: String,
}

/// The persisted configuration: the language code chosen last time.
pub struct Config {
    pub language: String,
}

/// What the English table holds, string for string.
pub open spec fn is_english(t: Translations) -> bool {
    &&& t.window_title@ == "Transcendental Encryption Tool"@
    &&& t.encrypt_tab@ == "Encrypt"@
    &&& t.decrypt_tab@ == "Decrypt"@
    &&& t.input_file_label@ == "Input File:"@
    &&& t.output_file_label@ == "Output File:"@
    &&& t.browse_button@ == "Browse..."@
    &&& t.seed_label@ == "Password/Seed:"@
    &&& t.seed_tooltip@ == "Enter a secure password or seed phrase for encryption"@
    &&& t.chunk_size_label@ == "Chunk Size:"@
    &&& t.unit_label@ == "Unit:"@
    &&& t.kilobyte@ == "KB"@
    &&& t.megabyte@ == "MB"@
    &&& t.gigabyte@ == "GB"@
    &&& t.encrypt_button@ == "Encrypt File"@
    &&& t.decrypt_button@ == "Decrypt File"@
    &&& t.progress_label@ == "Progress:"@
    &&& t.split_large_files@ == "Split large files into chunks"@
    &&& t.language_label@ == "Language:"@
    &&& t.english@ == "English"@
    &&& t.turkish@ == "Turkish"@
    &&& t.success_encrypt@ == "File encrypted successfully!"@
    &&& t.success_decrypt@ == "File decrypted successfully!"@
    &&& t.error_no_input@ == "Please select an input file."@
    &&& t.error_no_output@ == "Please select an output file."@
    &&& t.error_no_seed@ == "Please enter a password/seed."@
    &&& t.error_processing@ == "Error processing file: "@
    &&& t.error_title@ == "Error"@
    &&& t.success_title@ == "Success"@
    &&& t.large_file_prompt@ == "Large file detected! Do you want to split it into parts?"@
    &&& t.yes@ == "Yes"@
    &&& t.no@ == "No"@
    &&& t.cancel@ == "Cancel"@
    &&& t.file_dialog_filter@ == "All Files (*.*)\0*.*\0"@
}

/// What the Turkish table holds, string for string.
pub open spec fn is_turkish(t: Translations) -> bool {
    &&& t.window_title@ == "Aşkın Şifreleme Aracı"@
    &&& t.encrypt_tab@ == "Şifrele"@
    &&& t.decrypt_tab@ == "Şifre Çöz"@
    &&& t.input_file_label@ == "Girdi Dosyası:"@
    &&& t.output_file_label@ == "Çıktı Dosyası:"@
    &&& t.browse_button@ == "Gözat..."@
    &&& t.seed_label@ == "Parola/Tohum:"@
    &&& t.seed_tooltip@ == "Şifreleme için güvenli bir parola veya tohum cümlesi girin"@
    &&& t.chunk_size_label@ == "Parça Boyutu:"@
    &&& t.unit_label@ == "Birim:"@
    &&& t.kilobyte@ == "KB"@
    &&& t.megabyte@ == "MB"@
    &&& t.gigabyte@ == "GB"@
    &&& t.encrypt_button@ == "Dosyayı Şifrele"@
    &&& t.decrypt_button@ == "Şifreyi Çöz"@
    &&& t.progress_label@ == "İlerleme:"@
    &&& t.split_large_files@ == "Büyük dosyaları parçalara böl"@
    &&& t.language_label@ == "Dil:"@
    &&& t.english@ == "İngilizce"@
    &&& t.turkish@ == "Türkçe"@
    &&& t.success_encrypt@ == "Dosya başarıyla şifrelendi!"@
    &&& t.success_decrypt@ == "Dosyanın şifresi başarıyla çözüldü!"@
    &&& t.error_no_input@ == "Lütfen bir girdi dosyası seçin."@
    &&& t.error_no_output@ == "Lütfen bir çıktı dosyası seçin."@
    &&& t.error_no_seed@ == "Lütfen bir parola/tohum girin."@
    &&& t.error_processing@ == "Dosya işlenirken hata oluştu: "@
    &&& t.error_title@ == "Hata"@
    &&& t.success_title@ == "Başarılı"@
    &&& t.large_file_prompt@ == "Büyük dosya tespit edildi! Parçalara bölmek ister misiniz?"@
    &&& t.yes@ == "Evet"@
    &&& t.no@ == "Hayır"@
    &&& t.cancel@ == "İptal"@
    &&& t.file_dialog_filter@ == "Tüm Dosyalar (*.*)\0*.*\0"@
}

impl Translations {
    /// The English table.
    pub fn english() -> (t: Self)
        ensures
            is_english(t),
    {
        Translations {
            window_title: String::from_str("Transcendental Encryption Tool"),
            encrypt_tab: String::from_str("Encrypt"),
            decrypt_tab: String::from_str("Decrypt"),
            input_file_label: String::from_str("Input File:"),
            output_file_label: String::from_str("Output File:"),
            browse_button: String::from_str("Browse..."),
            seed_label: String::from_str("Password/Seed:"),
            seed_tooltip: String::from_str("Enter a secure password or seed phrase for encryption"),
            chunk_size_label: String::from_str("Chunk Size:"),
            unit_label: String::from_str("Unit:"),
            kilobyte: String::from_str("KB"),
            megabyte: String::from_str("MB"),
            gigabyte: String::from_str("GB"),
            encrypt_button: String::from_str("Encrypt File"),
            decrypt_button: String::from_str("Decrypt File"),
            progress_label: String::from_str("Progress:"),
            split_large_files: String::from_str("Split large files into chunks"),
            language_label: String::from_str("Language:"),
            english: String::from_str("English"),
            turkish: String::from_str("Turkish"),
            success_encrypt: String::from_str("File encrypted successfully!"),
            success_decrypt: String::from_str("File decrypted successfully!"),
            error_no_input: String::from_str("Please select an input file."),
            error_no_output: String::from_str("Please select an output file."),
            error_no_seed: String::from_str("Please enter a password/seed."),
            error_processing: String::from_str("Error processing file: "),
            error_title: String::from_str("Error"),
            success_title: String::from_str("Success"),
            large_file_prompt: String::from_str(
                "Large file detected! Do you want to split it into parts?",
            ),
            yes: String::from_str("Yes"),
            no: String::from_str("No"),
            cancel: String::from_str("Cancel"),
            file_dialog_filter: String::from_str("All Files (*.*)\0*.*\0"),
        }
    }

    /// The Turkish table.
    pub fn turkish() -> (t: Self)
        ensures
            is_turkish(t),
    {
        Translations {
            window_title: String::from_str("Aşkın Şifreleme Aracı"),
            encrypt_tab: String::from_str("Şifrele"),
            decrypt_tab: String::from_str("Şifre Çöz"),
            input_file_label: String::from_str("Girdi Dosyası:"),
            output_file_label: String::from_str("Çıktı Dosyası:"),
            browse_button: String::from_str("Gözat..."),
            seed_label: String::from_str("Parola/Tohum:"),
            seed_tooltip: String::from_str(
                "Şifreleme için güvenli bir parola veya tohum cümlesi girin",
            ),
            chunk_size_label: String::from_str("Parça Boyutu:"),
            unit_label: String::from_str("Birim:"),
            kilobyte: String::from_str("KB"),
            megabyte: String::from_str("MB"),
            gigabyte: String::from_str("GB"),
            encrypt_button: String::from_str("Dosyayı Şifrele"),
            decrypt_button: String::from_str("Şifreyi Çöz"),
            progress_label: String::from_str("İlerleme:"),
            split_large_files: String::from_str("Büyük dosyaları parçalara böl"),
            language_label: String::from_str("Dil:"),
            english: String::from_str("İngilizce"),
            turkish: String::from_str("Türkçe"),
            success_encrypt: String::from_str("Dosya başarıyla şifrelendi!"),
            success_decrypt: String::from_str("Dosyanın şifresi başarıyla çözüldü!"),
            error_no_input: String::from_str("Lütfen bir girdi dosyası seçin."),
            error_no_output: String::from_str("Lütfen bir çıktı dosyası seçin."),
            error_no_seed: String::from_str("Lütfen bir parola/tohum girin."),
            error_processing: String::from_str("Dosya işlenirken hata oluştu: "),
            error_title: String::from_str("Hata"),
            success_title: String::from_str("Başarılı"),
            large_file_prompt: String::from_str(
                "Büyük dosya tespit edildi! Parçalara bölmek ister misiniz?",
            ),
            yes: String::from_str("Evet"),
            no: String::from_str("Hayır"),
            cancel: String::from_str("İptal"),
            file_dialog_filter: String::from_str("Tüm Dosyalar (*.*)\0*.*\0"),
        }
    }

    /// The table a stored language code selects: Turkish for the code
    /// `tr`, English for every other code. A missing or unreadable
    /// preference is handed in as an empty code and so selects English.
    pub fn for_language_code(code: &str) -> (t: Self)
        ensures
            code@ == "tr"@ ==> is_turkish(t),
            code@ != "tr"@ ==> is_english(t),
    {
        if str_eq(code, "tr") {
            Self::turkish()
        } else {
            Self::english()
        }
    }
}

impl Default for Translations {
    /// The default language is English.
    fn default() -> (t: Self)
        ensures
            is_english(t),
    {
        Translations::english()
    }
}

/// Whether two text slices hold the same characters.
pub fn str_eq(a: &str, b: &str) -> (r: bool)
    ensures
        r == (a@ == b@),
{
    let al = a.unicode_len();
    let bl = b.unicode_len();
    if al != bl {
        return false;
    }
    let mut i: usize = 0;
    while i < al
        invariant
            i <= al,
            al == a@.len(),
            al == b@.len(),
            forall|j: int| 0 <= j < i ==> a@[j] == b@[j],
        decreases al - i,
    {
        if a.get_char(i) != b.get_char(i) {
            return false;
        }
        i = i + 1;
    }
    proof {
        assert(a@ =~= b@);
    }
    true
}

/// The message a half-filled request is refused with: the first missing
/// field decides, in the order input file, output file, seed. A fully
/// filled request is accepted with no message.
pub fn validation_error(
    t: &Translations,
    has_input: bool,
    has_output: bool,
    has_seed: bool,
) -> (r: Option<String>)
    ensures
        !has_input ==> r == Some(t.error_no_input),
        has_input && !has_output ==> r == Some(t.error_no_output),
        has_input && has_output && !has_seed ==> r == Some(t.error_no_seed),
        has_input && has_output && has_seed ==> r is None,
{
    if !has_input {
        Some(t.error_no_input.clone())
    } else if !has_output {
        Some(t.error_no_output.clone())
    } else if !has_seed {
        Some(t.error_no_seed.clone())
    } else {
        None
    }
}


/// The chunk size a user typed in: its value when the text is all decimal
/// digits and fits the machine word, and the default of 64 otherwise.
pub fn parse_chunk_size(text: &str) -> (n: u64)
    ensures
        text@.len() > 0 && all_digits(text@) && dec_value(text@) <= u64::MAX ==> n as int
            == dec_value(text@),
        !(text@.len() > 0 && all_digits(text@) && dec_value(text@) <= u64::MAX) ==> n == 64,
{
    let len = text.unicode_len();
    if len == 0 {
        return 64;
    }
    let mut acc: u64 = 0;
    let mut p: usize = 0;
    while p < len
        invariant
            p <= len,
            len == text@.len(),
            all_digits(text@.take(p as int)),
            acc as int == dec_value(text@.take(p as int)),
        decreases len - p,
    {
        let c = text.get_char(p);
        proof {
            lemma_dec_take_step(text@, p as int);
        }
        match digit_of(c) {
            None => {
                proof {
                    assert(!all_digits(text@));
                }
                return 64;
            },
            Some(d) => {
                let next = match acc.checked_mul(10) {
                    Some(v) => v.checked_add(d),
                    None => None,
                };
                match next {
                    Some(v) => {
                        acc = v;
                        proof {
                            assert(all_digits(text@.take(p + 1))) by {
                                assert(forall|i: int|
                                    0 <= i < p + 1 ==> text@.take(p + 1)[i] == text@[i]);
                                assert(forall|i: int|
                                    0 <= i < p ==> text@.take(p as int)[i] == text@[i]);
                            }
                        }
                    },
                    None => {
                        proof {
                            if all_digits(text@) {
                                assert(dec_value(text@.take(p + 1)) > u64::MAX);
                                crate::decimal::lemma_dec_value_prefix_le(text@, p + 1);
                            }
                        }
                        return 64;
                    },
                }
            },
        }
        p = p + 1;
    }
    proof {
        assert(text@.take(p as int) =~= text@);
        lemma_dec_value_nonneg(text@);
    }
    acc
}

} // verus!
