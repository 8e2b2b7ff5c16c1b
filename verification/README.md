# mbshark2

Capture and display of Modbus RTU traffic on a serial line, as a library whose
behaviour is stated in contracts and proved with Verus, and a small desktop
program around it.

## Library (`src/`)

| Module | What it holds |
| --- | --- |
| `protocol::crc` | CRC-16/Modbus |
| `protocol::frame` | frame validation and length prediction |
| `protocol::pdu` | decoding of all standard function codes |
| `capture::framer` | frames out of a byte stream |
| `capture::serial` | serial settings |
| `capture::engine` | the decisions of a capture, one input at a time |
| `session::model` | entries of the capture list |
| `session::pairing` | requests, responses, timeouts and late responses |
| `render::format` | the text of entries, and the slave filter |
| `render::settings` | the settings panel |
| `render::ui_view` | rows and colors of the capture list |
| `config` | the saved configuration and where it is kept |
| `export` | plain-text export |
| `app` | the state of the application |
| `text`, `time` | numerals, lists and numbers in text; wall-clock times |

Each data type has a model (`PduModel`, `EntryModel`, ...) that its view gives;
contracts speak of models. Public proof functions state what holds of the
library as a whole, for example that no received byte is lost
(`capture::engine::read_discards_nothing`), that a response shares the counter
of its request (`session::pairing::response_shares_the_counter`), or that saved
settings come back (`render::settings::saved_settings_come_back`).

Times of day are formatted and compared by `chrono`, behind two functions in
`time` whose contracts are taken on trust.

## Program (`app/`)

The window (egui), the serial port and the async loop (tokio), the config file
(TOML) and the save dialog. It waits, reads, draws and writes, and leaves every
decision to the library. The window takes its icon from `mbshark2.png` beside
the program, where there is one.

Environment variables for scripts: `MBSHARK_AUTOSTART_PORT` starts a capture on
a port at launch, `MBSHARK_AUTOEXPORT_PATH` writes the whole capture to a file
every second.
