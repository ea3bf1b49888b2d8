# playbridge

Lets MAA (MaaAssistantArknights) drive Arknights running in Google Play Games on PC, by
answering MAA as if it were `adb` and a MuMu capture DLL. The game window is captured with
Windows Graphics Capture and driven with window messages.

The library in `src/` holds the logic, each function with a contract proved by Verus:

- `shim`: reading the ADB command line MAA sends, and what answering it takes.
- `daemon`: the capture daemon's frame pipeline (crop, scale, framing, freshness), the window
  park and activation state machines, the launcher's polling, and the minitouch protocol.
- `game`: display frames, their PNG and `nc` framing, overlay marks, window messages, and
  finding the game window by its title.
- `sys`: the stored client, the store database reader, MAA's configuration, log lines and toasts.
- `nemu`: the status codes and frame layout of the emulator capture interface.
- `wire`, `text`: the protobuf wire format and the string helpers the parsers share.

`app/` is the program around it: Win32, the registry, sockets, files and the daemons' loops.
It carries out what the library decides.
