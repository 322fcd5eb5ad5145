# open-flow

Voice input: press a hotkey, speak, and the text is typed into the focused
application. Speech is recognised locally (SenseVoice) or by the Groq service.

`src/` is the verified library. It holds the program's decisions and
computations, with their contracts proved by Verus:

- `asr`: the model's output, CTC decoding, the providers' rules, WAV files
- `audio`, `pcm`, `single`: the choice of device, samples and their patterns
- `daemon`, `hotkey`, `overlay`, `tray`, `settings_window`: what each event does
- `text_injection`: conversion of Chinese, and what is typed in which pieces
- `common`: configuration, file locations and shared types
- `cli`: what each command decides
- `text`, `number`: strings and decimal numbers

`app/` is the program around it: the command line, devices, files, the network,
the model runtime and the platform's windows. `tests/` runs the library.
